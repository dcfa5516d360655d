//! Parsing incoming requests, and the URL helpers used by the proxy.
use vstd::prelude::*;
use crate::global::{APPLICATION_JSON, DEFAULT_METHOD, HEADER_BR, HEADER_BR_DOUBLE, HOST, POST, PUT};
use crate::strmap::{insert_entry, lookup, Entries, StrMap};
use crate::config::Server;
use crate::outside::{
    is_ascii_alnum,
    json_quoted, json_string, lowercase, parse_url, parsed_url, percent_decode_lossy,
    percent_decoded_lossy, percent_encode_alnum, percent_encoded, to_lowercase,
};
use vstd::utf8::encode_utf8;
use crate::text::{
    concat, decimal, join, lemma_join_push, push_all, push_decimal, push_str,
    chars_eq, next_token, next_token_at, replace_all, replace_chars, trim, trim_chars,
    chars_to_string, copy_range, copy_suffix, find_chars, find_str, first_piece,
    first_piece_chars, lemma_find_from, occurs_at, opt_int, split_pieces, split_str, str_chars,
    vec_views,
};

verus! {

/// The parts of a URL: scheme, host, `:port` (or nothing), and path.
pub struct HttpBase {
    pub scheme: String,
    pub host: String,
    pub port: String,
    pub path: String,
}

/// A parsed request.
#[derive(Debug)]
pub struct HttpRequest {
    pub path: String,
    pub method: String,
    pub headers: StrMap,
    pub body: StrMap,
}

impl HttpRequest {
    /// A copy of this request.
    pub fn duplicate(&self) -> (r: HttpRequest)
        ensures
            r@ == self@,
    {
        HttpRequest {
            path: self.path.clone(),
            method: self.method.clone(),
            headers: self.headers.duplicate(),
            body: self.body.duplicate(),
        }
    }
}

/// The contents of an `HttpRequest`.
pub struct HttpRequestView {
    pub path: Seq<char>,
    pub method: Seq<char>,
    pub headers: Entries,
    pub body: Entries,
}

impl View for HttpRequest {
    type V = HttpRequestView;

    open spec fn view(&self) -> HttpRequestView {
        HttpRequestView {
            path: self.path@,
            method: self.method@,
            headers: self.headers@,
            body: self.body@,
        }
    }
}

/// The first position of `c` in `s`.
pub open spec fn find_c(s: Seq<char>, c: char) -> Option<int> {
    find_str(s, seq![c])
}

/// The smaller of a found position and a bound.
pub open spec fn min_pos(p: Option<int>, bound: int) -> int {
    match p {
        Some(x) => if x < bound { x } else { bound },
        None => bound,
    }
}

/// Where the path of a request target ends: at the first `?` or `#`.
pub open spec fn path_end(url: Seq<char>) -> int {
    min_pos(find_c(url, '?'), min_pos(find_c(url, '#'), url.len() as int))
}

/// The path of a request target: from its first `/` up to its end.
pub open spec fn path_from_request_url(url: Seq<char>) -> Seq<char> {
    match find_c(url, '/') {
        Some(ps) => url.subrange(ps, path_end(url)),
        None => Seq::empty(),
    }
}

/// The path of a request target can be cut out: its first `/` does not come
/// after its end.
pub open spec fn path_slice_ok(url: Seq<char>) -> bool {
    match find_c(url, '/') {
        Some(ps) => ps <= path_end(url),
        None => true,
    }
}

/// One `key=value` pair of a query string: the key is what precedes the first
/// `=`, the value what lies between the first and a second `=`.
pub open spec fn query_step(es: Entries, pair: Seq<char>) -> Entries {
    match find_c(pair, '=') {
        Some(i) => insert_entry(es, pair.take(i), first_piece(pair.skip(i + 1), seq!['='])),
        None => es,
    }
}

/// Each piece applied to the entries in turn by `step`.
pub open spec fn fold_pieces(
    es: Entries,
    pieces: Seq<Seq<char>>,
    step: spec_fn(Entries, Seq<char>) -> Entries,
) -> Entries
    decreases pieces.len(),
{
    if pieces.len() == 0 {
        es
    } else {
        fold_pieces(step(es, pieces[0]), pieces.drop_first(), step)
    }
}

/// Where the query string of a URL ends: at its first `#`, else at its end.
pub open spec fn query_end(url: Seq<char>) -> int {
    match find_c(url, '#') {
        Some(h) => h,
        None => url.len() as int,
    }
}

/// The query string can be cut out: no `#` precedes the first `?`.
pub open spec fn query_slice_ok(url: Seq<char>) -> bool {
    match find_c(url, '?') {
        Some(q) => q + 1 <= query_end(url),
        None => true,
    }
}

/// The parameters of the query string of `url`, in order of first appearance.
pub open spec fn query_entries(url: Seq<char>) -> Entries {
    match find_c(url, '?') {
        Some(q) => fold_pieces(
            Seq::empty(),
            split_str(url.subrange(q + 1, query_end(url)), seq!['&']),
            |es: Entries, pair: Seq<char>| query_step(es, pair),
        ),
        None => Seq::empty(),
    }
}

/// Where the authority of a URL starts: after its first `://`.
pub open spec fn authority_start(url: Seq<char>) -> Option<int> {
    match find_str(url, seq![':', '/', '/']) {
        Some(p) => Some(p + 3),
        None => None,
    }
}

/// Where the authority ends in the text that follows `://`: at the first `/`,
/// `?` or `#`.
pub open spec fn domain_end(rest: Seq<char>) -> int {
    min_pos(find_c(rest, '/'), min_pos(find_c(rest, '?'), min_pos(find_c(rest, '#'), rest.len() as int)))
}

/// Where the path ends in the text that follows `://`: at the first `?` or `#`.
pub open spec fn url_path_end(rest: Seq<char>) -> int {
    min_pos(find_c(rest, '?'), min_pos(find_c(rest, '#'), rest.len() as int))
}

/// The host and port of a URL: the text between `://` and the path.
pub open spec fn domain_port(url: Seq<char>) -> Seq<char> {
    match authority_start(url) {
        Some(st) => url.subrange(st, st + domain_end(url.skip(st))),
        None => Seq::empty(),
    }
}

/// The path of a URL: from the end of the authority to the first `?` or `#`.
pub open spec fn url_path(url: Seq<char>) -> Seq<char> {
    match authority_start(url) {
        Some(st) => url.subrange(st + domain_end(url.skip(st)), st + url_path_end(url.skip(st))),
        None => Seq::empty(),
    }
}

proof fn lemma_find_c_bounds(s: Seq<char>, c: char)
    ensures
        find_c(s, c) matches Some(k) ==> 0 <= k < s.len() && s[k] == c,
{
    lemma_find_from(s, seq![c], 0);
    if let Some(k) = find_c(s, c) {
        assert(s.subrange(k, k + 1)[0] == s[k]);
    }
}

/// The first position of `c` in `s`.
pub fn find_char(s: &[char], c: char) -> (r: Option<usize>)
    ensures
        opt_int(r) == find_c(s@, c),
        r matches Some(k) ==> k < s.len() && s@[k as int] == c,
{
    proof {
        lemma_find_c_bounds(s@, c);
    }
    let pat = vec![c];
    assert(pat@ =~= seq![c]);
    find_chars(s, &pat)
}

fn min_found(p: Option<usize>, bound: usize) -> (r: usize)
    ensures
        r == min_pos(opt_int(p), bound as int),
{
    match p {
        Some(x) => if x < bound { x } else { bound },
        None => bound,
    }
}

impl HttpRequest {
    /// The path of a request target: from its first `/` to its first `?` or
    /// `#`.
    pub fn get_path_from_request_url(url_path: &str) -> (r: String)
        requires
            path_slice_ok(url_path@),
        ensures
            r@ == path_from_request_url(url_path@),
    {
        let s = str_chars(url_path);
        let v = path_chars(&s);
        chars_to_string(&v)
    }

    /// The parameters of the query string of `url`.
    pub fn get_query_from_request_url(url: &str) -> (r: StrMap)
        requires
            query_slice_ok(url@),
        ensures
            r@ == query_entries(url@),
    {
        let s = str_chars(url);
        query_map(&s)
    }

    /// The host and port of a URL.
    pub fn get_domain_port(url: &str) -> (r: String)
        ensures
            r@ == domain_port(url@),
    {
        let s = str_chars(url);
        let sep = vec![':', '/', '/'];
        assert(sep@ =~= seq![':', '/', '/']);
        proof {
            lemma_find_from(s@, sep@, 0);
        }
        match find_chars(&s, &sep) {
            Some(p) => {
                assert(p + 3 <= s.len());
                let st = p + 3;
                let rest = copy_suffix(&s, st);
                let e = domain_end_exec(&rest);
                let v = copy_range(&s, st, st + e);
                chars_to_string(&v)
            },
            None => String::new(),
        }
    }

    /// The path of a URL.
    pub fn get_path(url: &str) -> (r: String)
        ensures
            r@ == url_path(url@),
    {
        let s = str_chars(url);
        let sep = vec![':', '/', '/'];
        assert(sep@ =~= seq![':', '/', '/']);
        proof {
            lemma_find_from(s@, sep@, 0);
        }
        match find_chars(&s, &sep) {
            Some(p) => {
                assert(p + 3 <= s.len());
                let st = p + 3;
                let rest = copy_suffix(&s, st);
                let d = domain_end_exec(&rest);
                let e = path_end_exec(&rest);
                let v = copy_range(&s, st + d, st + e);
                chars_to_string(&v)
            },
            None => String::new(),
        }
    }

    /// The request to serve: a parsed request that carries a `host` header
    /// as it is; one without it reduced to a bare `GET` of its path; and a
    /// bare `GET` of the empty path where nothing was parsed.
    pub fn process_request(res: Option<HttpRequest>) -> (r: HttpRequest)
        ensures
            r@ == process_request_spec(
                match res {
                    Some(q) => Some(q@),
                    None => None::<HttpRequestView>,
                },
            ),
    {
        match res {
            Some(http_request) => {
                if http_request.headers.contains_key(HOST) {
                    http_request
                } else {
                    HttpRequest {
                        method: DEFAULT_METHOD.to_owned(),
                        body: StrMap::new(),
                        path: http_request.path,
                        headers: StrMap::new(),
                    }
                }
            },
            None => HttpRequest {
                method: DEFAULT_METHOD.to_owned(),
                body: StrMap::new(),
                path: String::new(),
                headers: StrMap::new(),
            },
        }
    }
}

/// The request that `process_request` hands on.
pub open spec fn process_request_spec(res: Option<HttpRequestView>) -> HttpRequestView {
    match res {
        Some(q) => if lookup(q.headers, HOST@) is Some {
            q
        } else {
            HttpRequestView {
                method: DEFAULT_METHOD@,
                body: Seq::empty(),
                path: q.path,
                headers: Seq::empty(),
            }
        },
        None => HttpRequestView {
            method: DEFAULT_METHOD@,
            body: Seq::empty(),
            path: Seq::empty(),
            headers: Seq::empty(),
        },
    }
}

fn path_end_exec(s: &[char]) -> (r: usize)
    ensures
        r == url_path_end(s@),
        r <= s.len(),
{
    let q = find_char(s, '?');
    let h = find_char(s, '#');
    min_found(q, min_found(h, s.len()))
}

fn domain_end_exec(s: &[char]) -> (r: usize)
    ensures
        r == domain_end(s@),
        r <= url_path_end(s@),
        r <= s.len(),
{
    let sl = find_char(s, '/');
    min_found(sl, path_end_exec(s))
}

/// The path of a request target, as characters.
pub fn path_chars(s: &[char]) -> (r: Vec<char>)
    requires
        path_slice_ok(s@),
    ensures
        r@ == path_from_request_url(s@),
{
    let e = path_end_exec(s);
    match find_char(s, '/') {
        Some(ps) => copy_range(s, ps, e),
        None => Vec::new(),
    }
}

/// One query pair applied to a map.
fn query_step_exec(m: &mut StrMap, pair: &[char])
    ensures
        final(m)@ == query_step(old(m)@, pair@),
{
    match find_char(pair, '=') {
        Some(i) => {
            let key = copy_range(pair, 0, i);
            assert(key@ =~= pair@.take(i as int));
            let rest = copy_suffix(pair, i + 1);
            let eq = vec!['='];
            assert(eq@ =~= seq!['=']);
            let value = first_piece_chars(&rest, &eq);
            m.insert(chars_to_string(&key), chars_to_string(&value));
        },
        None => {},
    }
}

/// The parameters of the query string of a URL, as a map.
pub fn query_map(s: &[char]) -> (r: StrMap)
    requires
        query_slice_ok(s@),
    ensures
        r@ == query_entries(s@),
{
    let mut m = StrMap::new();
    match find_char(s, '?') {
        None => m,
        Some(q) => {
            let end = match find_char(s, '#') {
                Some(h) => h,
                None => s.len(),
            };
            let qs = copy_range(s, q + 1, end);
            let amp = vec!['&'];
            assert(amp@ =~= seq!['&']);
            let pieces = split_pieces(&qs, &amp);
            let ghost step = |es: Entries, pair: Seq<char>| query_step(es, pair);
            let ghost all = vec_views(pieces@);
            let mut i: usize = 0;
            assert(all.skip(0) =~= all);
            while i < pieces.len()
                invariant
                    i <= pieces@.len(),
                    all == vec_views(pieces@),
                    step == (|es: Entries, pair: Seq<char>| query_step(es, pair)),
                    fold_pieces(Seq::empty(), all, step) == fold_pieces(m@, all.skip(i as int), step),
                decreases pieces.len() - i,
            {
                let ghost before = m@;
                let ghost rest = all.skip(i as int);
                assert(rest[0] == pieces@[i as int]@);
                assert(rest.drop_first() =~= all.skip(i + 1));
                assert(fold_pieces(before, rest, step) == fold_pieces(step(before, rest[0]), rest.drop_first(), step));
                let piece: &Vec<char> = &pieces[i];
                assert(piece@ == rest[0]);
                query_step_exec(&mut m, piece.as_slice());
                assert(m@ == query_step(before, rest[0]));
                assert(step(before, rest[0]) == m@);
                i += 1;
            }
            m
        },
    }
}


/// The text of a request up to its blank line, and the text that follows.
pub open spec fn request_sections(s: Seq<char>) -> Option<(Seq<char>, Seq<char>)> {
    match find_str(s, HEADER_BR_DOUBLE@) {
        Some(i) => Some((
            s.take(i),
            first_piece(s.skip(i + HEADER_BR_DOUBLE@.len()), HEADER_BR_DOUBLE@),
        )),
        None => None,
    }
}

/// The method and target of the request line of a header section.
pub open spec fn request_line(header_part: Seq<char>) -> Option<(Seq<char>, Seq<char>)> {
    match next_token(first_piece(header_part, HEADER_BR@)) {
        Some((m, r1)) => match next_token(r1) {
            Some((fp, _)) => Some((m, fp)),
            None => None,
        },
        None => None,
    }
}

/// One header line applied to the header entries: `name: value`, the name
/// trimmed and lower-cased and the value trimmed; a line without `:` is
/// skipped.
pub open spec fn header_step(es: Entries, line: Seq<char>) -> Entries {
    match find_c(line, ':') {
        Some(p) => insert_entry(es, lowercase(trim(line.take(p))), trim(line.skip(p + 1))),
        None => es,
    }
}

/// `s` without NUL characters.
pub open spec fn strip_nul(s: Seq<char>) -> Seq<char> {
    replace_all(s, seq!['\0'], Seq::empty())
}

/// One `key=value` parameter of a form body applied to the entries: both
/// sides percent-decoded with NUL characters removed; skipped where there is
/// no `=` or the key comes out empty.
pub open spec fn post_step(es: Entries, param: Seq<char>) -> Entries {
    match find_c(param, '=') {
        Some(p) => {
            let k = strip_nul(percent_decoded_lossy(param.take(p)));
            let v = strip_nul(percent_decoded_lossy(param.skip(p + 1)));
            if k.len() > 0 {
                insert_entry(es, k, v)
            } else {
                es
            }
        },
        None => es,
    }
}

/// The request that a request text describes, where it has a blank line
/// and a request line with a method and a target.
pub open spec fn parse_request_spec(s: Seq<char>) -> Option<HttpRequestView> {
    match request_sections(s) {
        None => None,
        Some((header_part, body_part)) => match request_line(header_part) {
            None => None,
            Some((method, full_path)) => Some(
                HttpRequestView {
                    method: method,
                    path: path_from_request_url(full_path),
                    headers: fold_pieces(
                        Seq::empty(),
                        split_str(header_part, HEADER_BR@).drop_first(),
                        |es: Entries, line: Seq<char>| header_step(es, line),
                    ),
                    body: if method == POST@ {
                        fold_pieces(
                            Seq::empty(),
                            split_str(body_part, seq!['&']),
                            |es: Entries, param: Seq<char>| post_step(es, param),
                        )
                    } else {
                        query_entries(full_path)
                    },
                },
            ),
        },
    }
}

/// Parsing the request text cuts out slices that exist: the target's path,
/// and for a method other than `POST` its query string.
pub open spec fn parse_safe(s: Seq<char>) -> bool {
    match request_sections(s) {
        None => true,
        Some((header_part, _)) => match request_line(header_part) {
            None => true,
            Some((method, full_path)) => path_slice_ok(full_path) && (method == POST@
                || query_slice_ok(full_path)),
        },
    }
}

/// The view of an optional request.
pub open spec fn opt_request_view(r: Option<HttpRequest>) -> Option<HttpRequestView> {
    match r {
        Some(q) => Some(q@),
        None => None,
    }
}

fn header_step_exec(m: &mut StrMap, line: &[char])
    ensures
        final(m)@ == header_step(old(m)@, line@),
{
    match find_char(line, ':') {
        Some(p) => {
            let k = copy_range(line, 0, p);
            assert(k@ =~= line@.take(p as int));
            let kt = trim_chars(&k);
            let key = to_lowercase(chars_to_string(&kt).as_str());
            let v = copy_suffix(line, p + 1);
            let vt = trim_chars(&v);
            m.insert(key, chars_to_string(&vt));
        },
        None => {},
    }
}

fn decode_param(s: &[char]) -> (r: String)
    ensures
        r@ == strip_nul(percent_decoded_lossy(s@)),
{
    let d = percent_decode_lossy(chars_to_string(s).as_str());
    let dc = str_chars(d.as_str());
    let nul = vec!['\0'];
    let none: Vec<char> = Vec::new();
    assert(nul@ =~= seq!['\0']);
    assert(none@ =~= Seq::<char>::empty());
    let r = replace_chars(&dc, &nul, &none);
    chars_to_string(&r)
}

fn post_step_exec(m: &mut StrMap, param: &[char])
    ensures
        final(m)@ == post_step(old(m)@, param@),
{
    match find_char(param, '=') {
        Some(p) => {
            let k = copy_range(param, 0, p);
            assert(k@ =~= param@.take(p as int));
            let v = copy_suffix(param, p + 1);
            let key = decode_param(&k);
            let value = decode_param(&v);
            if !key.as_str().is_empty() {
                m.insert(key, value);
            }
        },
        None => {},
    }
}

/// The header entries of a header section.
fn header_map(header_part: &[char]) -> (r: StrMap)
    ensures
        r@ == fold_pieces(
            Seq::empty(),
            split_str(header_part@, HEADER_BR@).drop_first(),
            |es: Entries, line: Seq<char>| header_step(es, line),
        ),
{
    let br = str_chars(HEADER_BR);
    proof {
        reveal_strlit("\r\n");
    }
    let pieces = split_pieces(header_part, &br);
    let ghost all = vec_views(pieces@);
    let ghost step = |es: Entries, line: Seq<char>| header_step(es, line);
    let mut m = StrMap::new();
    proof {
        crate::text::lemma_split_step(header_part@, br@);
    }
    assert(all.skip(1) =~= all.drop_first());
    let mut i: usize = 1;
    while i < pieces.len()
        invariant
            1 <= i <= pieces@.len(),
            all == vec_views(pieces@),
            step == (|es: Entries, line: Seq<char>| header_step(es, line)),
            fold_pieces(Seq::empty(), all.drop_first(), step) == fold_pieces(m@, all.skip(i as int), step),
        decreases pieces.len() - i,
    {
        let ghost before = m@;
        let ghost rest = all.skip(i as int);
        assert(rest[0] == pieces@[i as int]@);
        assert(rest.drop_first() =~= all.skip(i + 1));
        assert(fold_pieces(before, rest, step) == fold_pieces(step(before, rest[0]), rest.drop_first(), step));
        let piece: &Vec<char> = &pieces[i];
        header_step_exec(&mut m, piece.as_slice());
        assert(step(before, rest[0]) == m@);
        i += 1;
    }
    m
}

/// The parameters of a form body.
fn post_map(body_part: &[char]) -> (r: StrMap)
    ensures
        r@ == fold_pieces(
            Seq::empty(),
            split_str(body_part@, seq!['&']),
            |es: Entries, param: Seq<char>| post_step(es, param),
        ),
{
    let amp = vec!['&'];
    assert(amp@ =~= seq!['&']);
    let pieces = split_pieces(body_part, &amp);
    let ghost all = vec_views(pieces@);
    let ghost step = |es: Entries, param: Seq<char>| post_step(es, param);
    let mut m = StrMap::new();
    assert(all.skip(0) =~= all);
    let mut i: usize = 0;
    while i < pieces.len()
        invariant
            i <= pieces@.len(),
            all == vec_views(pieces@),
            step == (|es: Entries, param: Seq<char>| post_step(es, param)),
            fold_pieces(Seq::empty(), all, step) == fold_pieces(m@, all.skip(i as int), step),
        decreases pieces.len() - i,
    {
        let ghost before = m@;
        let ghost rest = all.skip(i as int);
        assert(rest[0] == pieces@[i as int]@);
        assert(rest.drop_first() =~= all.skip(i + 1));
        assert(fold_pieces(before, rest, step) == fold_pieces(step(before, rest[0]), rest.drop_first(), step));
        let piece: &Vec<char> = &pieces[i];
        post_step_exec(&mut m, piece.as_slice());
        assert(step(before, rest[0]) == m@);
        i += 1;
    }
    m
}

/// The method and target of the request line, as characters.
fn request_line_exec(header_part: &[char]) -> (r: Option<(Vec<char>, Vec<char>)>)
    ensures
        match request_line(header_part@) {
            Some((m, fp)) => r matches Some((a, b)) && a@ == m && b@ == fp,
            None => r is None,
        },
{
    let br = str_chars(HEADER_BR);
    let line = first_piece_chars(header_part, &br);
    match next_token_at(&line, 0) {
        None => {
            assert(line@.skip(0) =~= line@);
            None
        },
        Some((a, b)) => {
            assert(line@.skip(0) =~= line@);
            match next_token_at(&line, b) {
                None => None,
                Some((c, d)) => Some((copy_range(&line, a, b), copy_range(&line, c, d))),
            }
        },
    }
}

impl HttpRequest {
    /// Whether `parse_http_request` can parse `request_str`: its target's
    /// path, and for a method other than `POST` its query string, can be cut
    /// out.
    pub fn can_parse(request_str: &str) -> (r: bool)
        ensures
            r == parse_safe(request_str@),
    {
        let s = str_chars(request_str);
        let dbl = str_chars(HEADER_BR_DOUBLE);
        match find_chars(&s, &dbl) {
            None => true,
            Some(i) => {
                let header_part = copy_range(&s, 0, i);
                assert(header_part@ =~= s@.take(i as int));
                match request_line_exec(&header_part) {
                    None => true,
                    Some((method, full_path)) => {
                        let post = str_chars(POST);
                        let path_ok = path_ok_exec(&full_path);
                        let is_post = chars_eq(&method, &post);
                        path_ok && (is_post || query_ok_exec(&full_path))
                    },
                }
            },
        }
    }

    /// Parses a request text: `None` where it has no blank line or no method
    /// and target on its request line.
    pub fn parse_http_request(server: &Server, request_str: &str) -> (r: Option<HttpRequest>)
        requires
            parse_safe(request_str@),
        ensures
            opt_request_view(r) == parse_request_spec(request_str@),
    {
        let s = str_chars(request_str);
        let dbl = str_chars(HEADER_BR_DOUBLE);
        let i = match find_chars(&s, &dbl) {
            None => {
                return None;
            },
            Some(i) => i,
        };
        let n = dbl.len();
        let sl = s.len();
        assert(i + n <= sl);
        let header_part = copy_range(&s, 0, i);
        assert(header_part@ =~= s@.take(i as int));
        let after = copy_suffix(&s, i + n);
        let body_part = first_piece_chars(&after, &dbl);
        let (method, full_path) = match request_line_exec(&header_part) {
            None => {
                return None;
            },
            Some(mp) => mp,
        };
        let headers = header_map(&header_part);
        let path = path_chars(&full_path);
        let post = str_chars(POST);
        let body = if chars_eq(&method, &post) {
            post_map(&body_part)
        } else {
            query_map(&full_path)
        };
        Some(HttpRequest {
            method: chars_to_string(&method),
            path: chars_to_string(&path),
            headers,
            body,
        })
    }
}

fn path_ok_exec(s: &[char]) -> (r: bool)
    ensures
        r == path_slice_ok(s@),
{
    match find_char(s, '/') {
        Some(ps) => {
            let q = find_char(s, '?');
            let h = find_char(s, '#');
            ps <= min_found(q, min_found(h, s.len()))
        },
        None => true,
    }
}

pub(crate) fn query_ok_exec(s: &[char]) -> (r: bool)
    ensures
        r == query_slice_ok(s@),
{
    match find_char(s, '?') {
        Some(q) => {
            let end = match find_char(s, '#') {
                Some(h) => h,
                None => s.len(),
            };
            q + 1 <= end
        },
        None => true,
    }
}


/// One `key=value` pair of a generated query string, both sides
/// percent-encoded.
pub open spec fn query_pair_text(e: (Seq<char>, Seq<char>)) -> Seq<char> {
    percent_encoded(encode_utf8(e.0)) + seq!['='] + percent_encoded(encode_utf8(e.1))
}

/// The query string for `es`: the encoded pairs joined by `&`.
pub open spec fn query_string(es: Entries) -> Seq<char> {
    join(es.map_values(|e: (Seq<char>, Seq<char>)| query_pair_text(e)), seq!['&'])
}

/// `key=value&` for each entry, without the final `&`.
pub open spec fn url_encoded(es: Entries) -> Seq<char> {
    let s = concat(es.map_values(|e: (Seq<char>, Seq<char>)| e.0 + seq!['='] + e.1 + seq!['&']));
    if s.len() > 0 {
        s.drop_last()
    } else {
        s
    }
}

/// One `"key":"value"` member of a JSON object.
pub open spec fn json_member(e: (Seq<char>, Seq<char>)) -> Seq<char> {
    json_quoted(e.0) + seq![':'] + json_quoted(e.1)
}

/// The JSON object text for `es`: its members in order, separated by commas.
pub open spec fn json_object_text(es: Entries) -> Seq<char> {
    seq!['{'] + join(es.map_values(|e: (Seq<char>, Seq<char>)| json_member(e)), seq![',']) + seq!['}']
}

/// The data part of a forwarded request: a JSON object for a `POST` or
/// `PUT` of `application/json` (nothing for an empty body), else the
/// url-encoded pairs.
pub open spec fn http_data(method: Seq<char>, content_type: Seq<char>, es: Entries) -> Seq<char> {
    if (method == POST@ || method == PUT@) && content_type == APPLICATION_JSON@ {
        if es.len() == 0 {
            Seq::empty()
        } else {
            json_object_text(es)
        }
    } else {
        url_encoded(es)
    }
}

/// `:port` for a known port, else nothing.
pub open spec fn port_text(p: Option<u16>) -> Seq<char> {
    match p {
        Some(n) => seq![':'] + decimal(n as nat),
        None => Seq::empty(),
    }
}

/// The URL parses and has a host.
pub open spec fn http_base_ok(url: Seq<char>) -> bool {
    parsed_url(url) matches Some((_, Some(_), _, _))
}

/// Scheme, host, `:port` and path of a URL that parses and has a host.
pub open spec fn http_base_spec(url: Seq<char>) -> (Seq<char>, Seq<char>, Seq<char>, Seq<char>) {
    match parsed_url(url) {
        Some((sc, Some(h), p, path)) => (sc, h, port_text(p), path),
        _ => (Seq::empty(), Seq::empty(), Seq::empty(), Seq::empty()),
    }
}

/// The port of a URL that parses: the explicit or known default port, else 0.
pub open spec fn port_spec(url: Seq<char>) -> u16 {
    match parsed_url(url) {
        Some((_, _, Some(p), _)) => p,
        _ => 0,
    }
}

/// The view of `HttpBase` fields.
pub open spec fn http_base_view(b: HttpBase) -> (Seq<char>, Seq<char>, Seq<char>, Seq<char>) {
    (b.scheme@, b.host@, b.port@, b.path@)
}

fn port_string(p: Option<u16>) -> (r: String)
    ensures
        r@ == port_text(p),
{
    match p {
        Some(n) => {
            let mut v: Vec<char> = Vec::new();
            v.push(':');
            push_decimal(&mut v, n as usize);
            assert(v@ =~= seq![':'] + decimal(n as nat));
            chars_to_string(&v)
        },
        None => String::new(),
    }
}

impl HttpRequest {
    /// The query string for `data`: `key=value` pairs, percent-encoded,
    /// joined by `&`.
    pub fn generate_query_string(data: &StrMap) -> (r: String)
        ensures
            r@ == query_string(data@),
    {
        let ghost parts = data@.map_values(|e: (Seq<char>, Seq<char>)| query_pair_text(e));
        let mut out: Vec<char> = Vec::new();
        let mut i: usize = 0;
        let n = data.len();
        while i < n
            invariant
                i <= n,
                n == data@.len(),
                parts == data@.map_values(|e: (Seq<char>, Seq<char>)| query_pair_text(e)),
                out@ == join(parts.take(i as int), seq!['&']),
            decreases n - i,
        {
            let ghost before = out@;
            if i > 0 {
                out.push('&');
            }
            let k = percent_encode_alnum(data.key_at(i).as_str());
            push_str(&mut out, k.as_str());
            out.push('=');
            let v = percent_encode_alnum(data.value_at(i).as_str());
            push_str(&mut out, v.as_str());
            proof {
                lemma_join_push(parts.take(i as int), seq!['&'], parts[i as int]);
                assert(parts.take(i + 1) =~= parts.take(i as int).push(parts[i as int]));
                if i > 0 {
                    assert(out@ =~= before + seq!['&'] + parts[i as int]);
                } else {
                    assert(out@ =~= parts[i as int]);
                }
            }
            i += 1;
        }
        assert(parts.take(n as int) =~= parts);
        chars_to_string(&out)
    }

    /// The data part of a forwarded request.
    pub fn generate_http_data(method: &str, content_type: &str, body: &StrMap) -> (r: String)
        ensures
            r@ == http_data(method@, content_type@, body@),
            (method@ == POST@ || method@ == PUT@) && content_type@ == APPLICATION_JSON@ && body@.len() > 0
                ==> r@ == json_object_text(body@) && r@[0] == '{',
            !((method@ == POST@ || method@ == PUT@) && content_type@ == APPLICATION_JSON@) ==> r@ == url_encoded(
                body@,
            ),
    {
        let m = str_chars(method);
        let post = str_chars(POST);
        let put = str_chars(PUT);
        let ct = str_chars(content_type);
        let json = str_chars(APPLICATION_JSON);
        if (chars_eq(&m, &post) || chars_eq(&m, &put)) && chars_eq(&ct, &json) {
            if body.is_empty() {
                return String::new();
            }
            return json_object_string(body);
        }
        url_encoded_string(body)
    }

    /// Scheme, host, `:port` and path of a URL.
    pub fn get_http_base(url: &str) -> (r: HttpBase)
        requires
            http_base_ok(url@),
        ensures
            http_base_view(r) == http_base_spec(url@),
    {
        let parts = parse_url(url);
        match parts {
            Some(p) => match p.host {
                Some(h) => HttpBase { scheme: p.scheme, host: h, port: port_string(p.port), path: p.path },
                None => HttpBase {
                    scheme: String::new(),
                    host: String::new(),
                    port: String::new(),
                    path: String::new(),
                },
            },
            None => HttpBase {
                scheme: String::new(),
                host: String::new(),
                port: String::new(),
                path: String::new(),
            },
        }
    }

    /// The parts of a URL, or `None` where it does not parse or has no host.
    pub fn try_get_http_base(url: &str) -> (r: Option<HttpBase>)
        ensures
            r is Some <==> http_base_ok(url@),
            r matches Some(b) ==> http_base_view(b) == http_base_spec(url@),
    {
        let parts = parse_url(url);
        match parts {
            Some(p) => match p.host {
                Some(_) => Some(HttpRequest::get_http_base(url)),
                None => None,
            },
            None => None,
        }
    }

    /// `scheme://host:port/path` of a URL: it without query and fragment.
    pub fn get_url_without_query_hash(url: &str) -> (r: String)
        requires
            http_base_ok(url@),
        ensures
            r@ == http_base_spec(url@).0 + "://"@ + http_base_spec(url@).1 + http_base_spec(url@).2
                + http_base_spec(url@).3,
    {
        let b = HttpRequest::get_http_base(url);
        let mut v: Vec<char> = Vec::new();
        push_str(&mut v, b.scheme.as_str());
        push_str(&mut v, "://");
        push_str(&mut v, b.host.as_str());
        push_str(&mut v, b.port.as_str());
        push_str(&mut v, b.path.as_str());
        chars_to_string(&v)
    }

    /// `scheme://host:port` of a URL.
    pub fn get_url_without_path_query_hash(url: &str) -> (r: String)
        requires
            http_base_ok(url@),
        ensures
            r@ == http_base_spec(url@).0 + "://"@ + http_base_spec(url@).1 + http_base_spec(url@).2,
    {
        let b = HttpRequest::get_http_base(url);
        let mut v: Vec<char> = Vec::new();
        push_str(&mut v, b.scheme.as_str());
        push_str(&mut v, "://");
        push_str(&mut v, b.host.as_str());
        push_str(&mut v, b.port.as_str());
        chars_to_string(&v)
    }

    /// The scheme of a URL.
    pub fn get_scheme(url: &str) -> (r: String)
        requires
            http_base_ok(url@),
        ensures
            r@ == http_base_spec(url@).0,
    {
        HttpRequest::get_http_base(url).scheme
    }

    /// The host of a URL.
    pub fn get_ip_domain(url: &str) -> (r: String)
        requires
            http_base_ok(url@),
        ensures
            r@ == http_base_spec(url@).1,
    {
        HttpRequest::get_http_base(url).host
    }

    /// The port of a URL: explicit or the scheme's known default, else 0.
    pub fn get_port(url: &str) -> (r: u16)
        requires
            http_base_ok(url@),
        ensures
            r == port_spec(url@),
    {
        match parse_url(url) {
            Some(p) => match p.port {
                Some(n) => n,
                None => 0,
            },
            None => 0,
        }
    }

    /// `host:port` of a URL.
    pub fn get_ip_domain_port(url: &str) -> (r: String)
        requires
            http_base_ok(url@),
        ensures
            r@ == http_base_spec(url@).1 + seq![':'] + decimal(port_spec(url@) as nat),
    {
        let h = HttpRequest::get_ip_domain(url);
        let p = HttpRequest::get_port(url);
        let mut v: Vec<char> = Vec::new();
        push_str(&mut v, h.as_str());
        v.push(':');
        push_decimal(&mut v, p as usize);
        assert(v@ =~= h@ + seq![':'] + decimal(p as nat));
        chars_to_string(&v)
    }

    /// `host:port` of a URL, or `None` where it does not parse or has no host.
    pub fn try_get_ip_domain_port(url: &str) -> (r: Option<String>)
        ensures
            r is Some <==> http_base_ok(url@),
            r matches Some(s) ==> s@ == http_base_spec(url@).1 + seq![':'] + decimal(
                port_spec(url@) as nat,
            ),
    {
        match parse_url(url) {
            Some(p) => match p.host {
                Some(_) => Some(HttpRequest::get_ip_domain_port(url)),
                None => None,
            },
            None => None,
        }
    }

    /// The request line `METHOD url HTTP/1.1` with its line break.
    pub fn get_http_request_protocol_head(url: &str, method: &str) -> (r: String)
        ensures
            r@ == method@ + seq![' '] + url@ + " HTTP/1.1"@ + HEADER_BR@,
    {
        let mut v: Vec<char> = Vec::new();
        push_str(&mut v, method);
        v.push(' ');
        push_str(&mut v, url);
        push_str(&mut v, " HTTP/1.1");
        push_str(&mut v, HEADER_BR);
        assert(v@ =~= method@ + seq![' '] + url@ + " HTTP/1.1"@ + HEADER_BR@);
        chars_to_string(&v)
    }

    /// The text that describes this request: method, path, then each header
    /// and each body parameter as `name: value` lines.
    pub fn to_display_string(&self) -> (r: String)
        ensures
            r@ == "method: "@ + self.method@ + "\npath: "@ + self.path@ + "\nheaders:\n"@
                + lines_text(self.headers@) + "\nbody:\n"@ + lines_text(self.body@),
    {
        let mut v: Vec<char> = Vec::new();
        push_str(&mut v, "method: ");
        push_str(&mut v, self.method.as_str());
        push_str(&mut v, "\npath: ");
        push_str(&mut v, self.path.as_str());
        push_str(&mut v, "\nheaders:\n");
        push_lines(&mut v, &self.headers);
        push_str(&mut v, "\nbody:\n");
        push_lines(&mut v, &self.body);
        chars_to_string(&v)
    }
}

/// Each entry as a `name: value` line.
pub open spec fn lines_text(es: Entries) -> Seq<char> {
    concat(es.map_values(|e: (Seq<char>, Seq<char>)| e.0 + seq![':', ' '] + e.1 + seq!['\n']))
}

fn push_lines(out: &mut Vec<char>, m: &StrMap)
    ensures
        final(out)@ == old(out)@ + lines_text(m@),
{
    let ghost parts = m@.map_values(|e: (Seq<char>, Seq<char>)| e.0 + seq![':', ' '] + e.1 + seq!['\n']);
    let mut i: usize = 0;
    let n = m.len();
    while i < n
        invariant
            i <= n,
            n == m@.len(),
            parts == m@.map_values(|e: (Seq<char>, Seq<char>)| e.0 + seq![':', ' '] + e.1 + seq!['\n']),
            out@ == old(out)@ + concat(parts.take(i as int)),
        decreases n - i,
    {
        push_str(out, m.key_at(i).as_str());
        out.push(':');
        out.push(' ');
        push_str(out, m.value_at(i).as_str());
        out.push('\n');
        assert(parts.take(i + 1).drop_last() =~= parts.take(i as int));
        assert(out@ =~= old(out)@ + concat(parts.take(i + 1)));
        i += 1;
    }
    assert(parts.take(n as int) =~= parts);
}

fn url_encoded_string(body: &StrMap) -> (r: String)
    ensures
        r@ == url_encoded(body@),
{
    let ghost parts = body@.map_values(|e: (Seq<char>, Seq<char>)| e.0 + seq!['='] + e.1 + seq!['&']);
    let mut out: Vec<char> = Vec::new();
    let mut i: usize = 0;
    let n = body.len();
    while i < n
        invariant
            i <= n,
            n == body@.len(),
            parts == body@.map_values(|e: (Seq<char>, Seq<char>)| e.0 + seq!['='] + e.1 + seq!['&']),
            out@ == concat(parts.take(i as int)),
        decreases n - i,
    {
        push_str(&mut out, body.key_at(i).as_str());
        out.push('=');
        push_str(&mut out, body.value_at(i).as_str());
        out.push('&');
        assert(parts.take(i + 1).drop_last() =~= parts.take(i as int));
        assert(out@ =~= concat(parts.take(i + 1)));
        i += 1;
    }
    assert(parts.take(n as int) =~= parts);
    if out.len() > 0 {
        out.pop();
    }
    chars_to_string(&out)
}

fn json_object_string(body: &StrMap) -> (r: String)
    ensures
        r@ == json_object_text(body@),
{
    let ghost l = body@.map_values(|e: (Seq<char>, Seq<char>)| json_member(e));
    let mut out: Vec<char> = Vec::new();
    out.push('{');
    let mut t: usize = 0;
    let n = body.len();
    while t < n
        invariant
            t <= n,
            n == body@.len(),
            l == body@.map_values(|e: (Seq<char>, Seq<char>)| json_member(e)),
            out@ == seq!['{'] + join(l.take(t as int), seq![',']),
        decreases n - t,
    {
        let ghost before = out@;
        if t > 0 {
            out.push(',');
        }
        let k = match json_string(body.key_at(t).as_str()) {
            Some(a) => a,
            None => String::new(),
        };
        let v = match json_string(body.value_at(t).as_str()) {
            Some(b) => b,
            None => String::new(),
        };
        push_str(&mut out, k.as_str());
        out.push(':');
        push_str(&mut out, v.as_str());
        proof {
            assert(l[t as int] == k@ + seq![':'] + v@);
            lemma_join_push(l.take(t as int), seq![','], l[t as int]);
            assert(l.take(t + 1) =~= l.take(t as int).push(l[t as int]));
            if t > 0 {
                assert(out@ =~= before + seq![','] + l[t as int]);
            } else {
                assert(out@ =~= before + l[t as int]);
            }
        }
        t += 1;
    }
    assert(l.take(n as int) =~= l);
    out.push('}');
    chars_to_string(&out)
}

/// Processing a processed request changes nothing.
pub proof fn law_process_request_idempotent(res: Option<HttpRequestView>)
    ensures
        process_request_spec(Some(process_request_spec(res))) == process_request_spec(res),
{
}

/// An ASCII letter or digit.
pub open spec fn alnum_char(c: char) -> bool {
    ('0' <= c && c <= '9') || ('A' <= c && c <= 'Z') || ('a' <= c && c <= 'z')
}

/// Every character of `s` is an ASCII letter or digit.
pub open spec fn alnum_text(s: Seq<char>) -> bool {
    forall|i: int| 0 <= i < s.len() ==> alnum_char(#[trigger] s[i])
}

/// Percent-encoding leaves bytes of ASCII letters and digits as they are.
proof fn lemma_percent_alnum_bytes(b: Seq<u8>)
    requires
        forall|i: int| 0 <= i < b.len() ==> is_ascii_alnum(#[trigger] b[i]),
    ensures
        percent_encoded(b) == Seq::new(b.len(), |i: int| b[i] as char),
    decreases b.len(),
{
    if b.len() > 0 {
        let t = b.drop_first();
        assert forall|i: int| 0 <= i < t.len() implies is_ascii_alnum(#[trigger] t[i]) by {
            assert(t[i] == b[i + 1]);
        }
        lemma_percent_alnum_bytes(t);
        assert(percent_encoded(b) =~= Seq::new(b.len(), |i: int| b[i] as char));
    }
}

/// Percent-encoding the UTF-8 bytes of ASCII letters and digits gives the
/// text back.
proof fn lemma_percent_alnum(s: Seq<char>)
    requires
        alnum_text(s),
    ensures
        percent_encoded(encode_utf8(s)) == s,
{
    assert(vstd::utf8::is_ascii_chars(s));
    vstd::utf8::is_ascii_chars_encode_utf8(s);
    let b = encode_utf8(s);
    assert forall|i: int| 0 <= i < b.len() implies is_ascii_alnum(#[trigger] b[i]) by {
        assert(s[i] as u8 == b[i]);
        assert(alnum_char(s[i]));
    }
    lemma_percent_alnum_bytes(b);
    assert forall|i: int| 0 <= i < s.len() implies #[trigger] s[i] == (b[i] as char) by {
        assert(s[i] as u8 == b[i]);
        assert(alnum_char(s[i]));
    }
    assert(Seq::new(b.len(), |i: int| b[i] as char) =~= s);
}

/// The `name=value` text of a parameter.
pub open spec fn plain_pair(e: (Seq<char>, Seq<char>)) -> Seq<char> {
    e.0 + seq!['='] + e.1
}

/// The join of pieces that do not hold `x`, with a separator other than
/// `x`, does not hold `x`.
proof fn lemma_join_avoids(parts: Seq<Seq<char>>, c: char, x: char)
    requires
        x != c,
        forall|i: int, j: int| 0 <= i < parts.len() && 0 <= j < parts[i].len() ==> #[trigger] parts[i][j] != x,
    ensures
        forall|j: int| 0 <= j < join(parts, seq![c]).len() ==> #[trigger] join(parts, seq![c])[j] != x,
    decreases parts.len(),
{
    if parts.len() == 1 {
        assert forall|j: int| 0 <= j < join(parts, seq![c]).len() implies #[trigger] join(parts, seq![c])[j] != x by {
            assert(parts[0][j] != x);
        }
    } else if parts.len() > 1 {
        let rest = parts.drop_first();
        assert forall|i: int, j: int| 0 <= i < rest.len() && 0 <= j < rest[i].len() implies #[trigger] rest[i][j] != x by {
            assert(rest[i] == parts[i + 1]);
        }
        lemma_join_avoids(rest, c, x);
        let s = join(parts, seq![c]);
        assert(s == parts[0] + seq![c] + join(rest, seq![c]));
        assert forall|j: int| 0 <= j < s.len() implies #[trigger] s[j] != x by {
            let k = parts[0].len() as int;
            if j < k {
                assert(s[j] == parts[0][j]);
            } else if j > k {
                assert(s[j] == join(rest, seq![c])[j - k - 1]);
            }
        }
    }
}

/// Reading the pairs of parameters with distinct names and texts of letters
/// and digits, after the first `i` of them, adds them in order.
proof fn lemma_fold_pairs(es: Entries, i: int, step: spec_fn(Entries, Seq<char>) -> Entries)
    requires
        crate::strmap::keys_distinct(es),
        0 <= i <= es.len(),
        forall|k: int| 0 <= k < es.len() ==> alnum_text(#[trigger] es[k].0) && alnum_text(es[k].1),
        step == (|es: Entries, pair: Seq<char>| query_step(es, pair)),
    ensures
        fold_pieces(es.take(i), es.map_values(|e: (Seq<char>, Seq<char>)| plain_pair(e)).skip(i), step) == es,
    decreases es.len() - i,
{
    let pieces = es.map_values(|e: (Seq<char>, Seq<char>)| plain_pair(e));
    if i == es.len() {
        assert(pieces.skip(i).len() == 0);
        assert(es.take(i) =~= es);
    } else {
        let e = es[i];
        let pair = plain_pair(e);
        assert(pieces.skip(i)[0] == pair);
        assert(pieces.skip(i).drop_first() =~= pieces.skip(i + 1));
        let k = e.0.len() as int;
        assert(alnum_text(e.0) && alnum_text(e.1));
        assert(pair.subrange(k, k + 1) =~= seq!['=']);
        assert forall|j: int| 0 <= j < k implies !occurs_at(pair, seq!['='], j) by {
            assert(pair.subrange(j, j + 1)[0] == pair[j]);
            assert(pair[j] == e.0[j]);
            assert(alnum_char(e.0[j]));
        }
        crate::text::lemma_find_str_is(pair, seq!['='], k);
        assert(pair.take(k) =~= e.0);
        assert(pair.skip(k + 1) =~= e.1);
        assert forall|j: int| 0 <= j implies !occurs_at(e.1, seq!['='], j) by {
            if j < e.1.len() {
                assert(e.1.subrange(j, j + 1)[0] == e.1[j]);
                assert(alnum_char(e.1[j]));
            }
        }
        crate::text::lemma_find_str_none(e.1, seq!['=']);
        let acc = es.take(i);
        assert(!crate::strmap::has_key(acc, e.0)) by {
            if crate::strmap::has_key(acc, e.0) {
                let q = choose|q: int| 0 <= q < acc.len() && acc[q].0 == e.0;
                assert(es[q].0 == es[i].0);
            }
        }
        assert(query_step(acc, pair) == insert_entry(acc, e.0, e.1));
        assert(insert_entry(acc, e.0, e.1) =~= es.take(i + 1));
        lemma_fold_pairs(es, i + 1, step);
    }
}

/// A query string made by `generate_query_string` reads back through
/// `get_query_from_request_url` as the same parameters in the same order,
/// where the names and values are made of ASCII letters and digits.
pub proof fn law_query_string_round_trip(es: Entries)
    requires
        crate::strmap::keys_distinct(es),
        forall|k: int| 0 <= k < es.len() ==> alnum_text(#[trigger] es[k].0) && alnum_text(es[k].1),
    ensures
        query_slice_ok(seq!['?'] + query_string(es)),
        query_entries(seq!['?'] + query_string(es)) == es,
{
    let text = query_string(es);
    let url = seq!['?'] + text;
    let pieces = es.map_values(|e: (Seq<char>, Seq<char>)| plain_pair(e));
    assert forall|k: int| 0 <= k < es.len() implies #[trigger] query_pair_text(es[k]) == plain_pair(es[k]) by {
        lemma_percent_alnum(es[k].0);
        lemma_percent_alnum(es[k].1);
    }
    assert(es.map_values(|e: (Seq<char>, Seq<char>)| query_pair_text(e)) =~= pieces);
    assert(text == join(pieces, seq!['&']));
    assert forall|i: int, j: int| 0 <= i < pieces.len() && 0 <= j < pieces[i].len()
        implies #[trigger] pieces[i][j] != '&' && pieces[i][j] != '#' && pieces[i][j] != '?' by {
        let e = es[i];
        assert(pieces[i] == e.0 + seq!['='] + e.1);
        if j < e.0.len() {
            assert(pieces[i][j] == e.0[j]);
            assert(alnum_char(e.0[j]));
        } else if j > e.0.len() {
            assert(pieces[i][j] == e.1[j - e.0.len() - 1]);
            assert(alnum_char(e.1[j - e.0.len() - 1]));
        }
    }
    assert(url.subrange(0, 1) =~= seq!['?']);
    crate::text::lemma_find_str_is(url, seq!['?'], 0);
    assert(find_c(url, '?') == Some(0int));
    let step = |es: Entries, pair: Seq<char>| query_step(es, pair);
    if es.len() == 0 {
        assert(text == Seq::<char>::empty());
        assert(url =~= seq!['?']);
        assert forall|j: int| 0 <= j implies !occurs_at(url, seq!['#'], j) by {
            if j < url.len() {
                assert(url.subrange(j, j + 1)[0] == url[j]);
            }
        }
        crate::text::lemma_find_str_none(url, seq!['#']);
        assert(url.subrange(1, 1) =~= Seq::<char>::empty());
        assert forall|j: int| 0 <= j implies !occurs_at(Seq::<char>::empty(), seq!['&'], j) by {}
        crate::text::lemma_find_str_none(Seq::<char>::empty(), seq!['&']);
        crate::text::lemma_split_step(Seq::<char>::empty(), seq!['&']);
        assert(split_str(Seq::<char>::empty(), seq!['&']) =~= seq![Seq::<char>::empty()]);
        assert forall|j: int| 0 <= j implies !occurs_at(Seq::<char>::empty(), seq!['='], j) by {}
        crate::text::lemma_find_str_none(Seq::<char>::empty(), seq!['=']);
        let one = seq![Seq::<char>::empty()];
        let none = Seq::<(Seq<char>, Seq<char>)>::empty();
        assert(one.drop_first() =~= Seq::<Seq<char>>::empty());
        assert(step(none, one[0]) == none);
        assert(fold_pieces(none, Seq::<Seq<char>>::empty(), step) == none);
        assert(fold_pieces(none, one, step) == none);
    } else {
        crate::text::lemma_split_join(pieces, '&');
        lemma_join_avoids(pieces, '&', '#');
        assert forall|j: int| 0 <= j implies !occurs_at(url, seq!['#'], j) by {
            if 0 <= j < url.len() {
                assert(url.subrange(j, j + 1)[0] == url[j]);
                if j > 0 {
                    assert(url[j] == text[j - 1]);
                }
            }
        }
        crate::text::lemma_find_str_none(url, seq!['#']);
        assert(url.subrange(1, url.len() as int) =~= text);
        lemma_fold_pairs(es, 0, step);
        assert(es.take(0) =~= Seq::<(Seq<char>, Seq<char>)>::empty());
        assert(pieces.skip(0) =~= pieces);
    }
}

/// The name a header line sets, if it has a `:`: the text before its first
/// `:`, trimmed and lower-cased.
pub open spec fn header_line_name(line: Seq<char>) -> Option<Seq<char>> {
    match find_c(line, ':') {
        Some(p) => Some(lowercase(trim(line.take(p)))),
        None => None,
    }
}

/// `find_c` finds the first `:` of a line at `p` when `p` holds one and no
/// earlier position does.
proof fn lemma_first_colon(line: Seq<char>, p: int)
    requires
        0 <= p < line.len(),
        line[p] == ':',
        forall|j: int| 0 <= j < p ==> line[j] != ':',
    ensures
        find_c(line, ':') == Some(p),
{
    assert(line.subrange(p, p + 1) =~= seq![':']);
    assert forall|j: int| 0 <= j < p implies !occurs_at(line, seq![':'], j) by {
        assert(line.subrange(j, j + 1)[0] == line[j]);
    }
    crate::text::lemma_find_str_is(line, seq![':'], p);
}

/// A header line `name: value` sets its trimmed, lower-cased name to the
/// trimmed text after its first `:` (the whole rest of the line, further
/// `:` included), and leaves every other header as it was; a line without
/// `:` changes nothing.
pub proof fn law_header_line_value(es: Entries, line: Seq<char>, p: int, other: Seq<char>)
    requires
        crate::strmap::keys_distinct(es),
        0 <= p < line.len(),
        line[p] == ':',
        forall|j: int| 0 <= j < p ==> line[j] != ':',
    ensures
        crate::strmap::keys_distinct(header_step(es, line)),
        header_line_name(line) == Some(lowercase(trim(line.take(p)))),
        lookup(header_step(es, line), lowercase(trim(line.take(p)))) == Some(trim(line.skip(p + 1))),
        other != lowercase(trim(line.take(p))) ==> lookup(header_step(es, line), other) == lookup(es, other),
{
    lemma_first_colon(line, p);
    crate::strmap::law_lookup_after_insert(es, lowercase(trim(line.take(p))), trim(line.skip(p + 1)), other);
}

/// A line without `:` sets no header.
pub proof fn law_header_line_without_colon(es: Entries, line: Seq<char>)
    requires
        forall|j: int| 0 <= j < line.len() ==> line[j] != ':',
    ensures
        header_step(es, line) == es,
        header_line_name(line) is None,
{
    assert forall|j: int| 0 <= j implies !occurs_at(line, seq![':'], j) by {
        if j < line.len() {
            assert(line.subrange(j, j + 1)[0] == line[j]);
        }
    }
    crate::text::lemma_find_str_none(line, seq![':']);
}

/// Reading header lines keeps keys distinct, and leaves the value of a
/// name that no line sets as it was.
proof fn lemma_header_fold_keeps(
    es: Entries,
    lines: Seq<Seq<char>>,
    n: Seq<char>,
    step: spec_fn(Entries, Seq<char>) -> Entries,
)
    requires
        crate::strmap::keys_distinct(es),
        step == (|es: Entries, line: Seq<char>| header_step(es, line)),
        forall|j: int| 0 <= j < lines.len() ==> header_line_name(#[trigger] lines[j]) != Some(n),
    ensures
        crate::strmap::keys_distinct(fold_pieces(es, lines, step)),
        lookup(fold_pieces(es, lines, step), n) == lookup(es, n),
    decreases lines.len(),
{
    if lines.len() > 0 {
        let l0 = lines[0];
        let es1 = step(es, l0);
        assert(es1 == header_step(es, l0));
        match find_c(l0, ':') {
            Some(p) => {
                lemma_find_c_bounds(l0, ':');
                crate::text::lemma_find_from(l0, seq![':'], 0);
                assert forall|j: int| 0 <= j < p implies l0[j] != ':' by {
                    assert(!occurs_at(l0, seq![':'], j));
                    if l0[j] == ':' {
                        assert(l0.subrange(j, j + 1) =~= seq![':']);
                    }
                }
                law_header_line_value(es, l0, p, n);
            },
            None => {},
        }
        assert forall|j: int| 0 <= j < lines.drop_first().len() implies header_line_name(#[trigger] lines.drop_first()[j]) != Some(n) by {
            assert(lines.drop_first()[j] == lines[j + 1]);
        }
        if find_c(l0, ':') is None {
            assert(es1 == es);
        }
        lemma_header_fold_keeps(es1, lines.drop_first(), n, step);
    }
}

/// Reading header lines: a name takes the value of the last line that sets
/// it.
proof fn lemma_header_fold_last(
    es: Entries,
    lines: Seq<Seq<char>>,
    i: int,
    p: int,
    step: spec_fn(Entries, Seq<char>) -> Entries,
)
    requires
        crate::strmap::keys_distinct(es),
        step == (|es: Entries, line: Seq<char>| header_step(es, line)),
        0 <= i < lines.len(),
        0 <= p < lines[i].len(),
        lines[i][p] == ':',
        forall|j: int| 0 <= j < p ==> lines[i][j] != ':',
        forall|j: int| i < j < lines.len() ==> header_line_name(#[trigger] lines[j]) != Some(lowercase(trim(lines[i].take(p)))),
    ensures
        lookup(fold_pieces(es, lines, step), lowercase(trim(lines[i].take(p)))) == Some(trim(lines[i].skip(p + 1))),
    decreases lines.len(),
{
    let n = lowercase(trim(lines[i].take(p)));
    let l0 = lines[0];
    let rest = lines.drop_first();
    let es1 = step(es, l0);
    assert(es1 == header_step(es, l0));
    match find_c(l0, ':') {
        Some(q) => {
            lemma_find_c_bounds(l0, ':');
            crate::text::lemma_find_from(l0, seq![':'], 0);
            assert forall|j: int| 0 <= j < q implies l0[j] != ':' by {
                assert(!occurs_at(l0, seq![':'], j));
                if l0[j] == ':' {
                    assert(l0.subrange(j, j + 1) =~= seq![':']);
                }
            }
            law_header_line_value(es, l0, q, n);
        },
        None => {
            assert(es1 == es);
        },
    }
    if i == 0 {
        law_header_line_value(es, l0, p, n);
        assert forall|j: int| 0 <= j < rest.len() implies header_line_name(#[trigger] rest[j]) != Some(n) by {
            assert(rest[j] == lines[j + 1]);
        }
        lemma_header_fold_keeps(es1, rest, n, step);
    } else {
        assert(rest[i - 1] == lines[i]);
        assert forall|j: int| i - 1 < j < rest.len() implies header_line_name(#[trigger] rest[j]) != Some(n) by {
            assert(rest[j] == lines[j + 1]);
        }
        lemma_header_fold_last(es1, rest, i - 1, p, step);
    }
}

/// The header lines of a request text: the lines after the request line,
/// up to the first empty line.
pub open spec fn request_header_lines(s: Seq<char>) -> Seq<Seq<char>> {
    match find_str(s, HEADER_BR_DOUBLE@) {
        Some(h) => split_str(s.take(h), HEADER_BR@).drop_first(),
        None => Seq::empty(),
    }
}

/// In a parsed request, a header line `name: value` that no later line
/// overrides gives its trimmed, lower-cased name the trimmed text after the
/// first `:` of the line, all of it.
pub proof fn law_parsed_header_value(s: Seq<char>, i: int, p: int)
    requires
        parse_request_spec(s) is Some,
        0 <= i < request_header_lines(s).len(),
        0 <= p < request_header_lines(s)[i].len(),
        request_header_lines(s)[i][p] == ':',
        forall|j: int| 0 <= j < p ==> request_header_lines(s)[i][j] != ':',
        forall|j: int| i < j < request_header_lines(s).len()
            ==> header_line_name(#[trigger] request_header_lines(s)[j]) != Some(
                lowercase(trim(request_header_lines(s)[i].take(p))),
            ),
    ensures
        lookup(
            parse_request_spec(s)->0.headers,
            lowercase(trim(request_header_lines(s)[i].take(p))),
        ) == Some(trim(request_header_lines(s)[i].skip(p + 1))),
{
    let lines = request_header_lines(s);
    let step = |es: Entries, line: Seq<char>| header_step(es, line);
    lemma_header_fold_last(Seq::empty(), lines, i, p, step);
}

/// The data of a forwarded request: a `PUT` gets exactly what a `POST`
/// gets; for either with content type `application/json` and at least one
/// parameter it is the JSON object of the parameters (it opens with `{`),
/// with no parameters it is empty; every other request gets the url-encoded
/// pairs.
pub proof fn law_http_data(method: Seq<char>, content_type: Seq<char>, es: Entries)
    ensures
        http_data(PUT@, content_type, es) == http_data(POST@, content_type, es),
        (method == POST@ || method == PUT@) && content_type == APPLICATION_JSON@ && es.len() > 0
            ==> http_data(method, content_type, es) == json_object_text(es) && http_data(method, content_type, es)[0] == '{',
        (method == POST@ || method == PUT@) && content_type == APPLICATION_JSON@ && es.len() == 0
            ==> http_data(method, content_type, es) == Seq::<char>::empty(),
        !((method == POST@ || method == PUT@) && content_type == APPLICATION_JSON@)
            ==> http_data(method, content_type, es) == url_encoded(es),
{
}

} // verus!
