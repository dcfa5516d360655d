//! Server configuration: the settings of one bound host name, the listening
//! groups, the built-in defaults, and how resource paths are resolved
//! against a server's root.
use vstd::prelude::*;
use crate::global::{
    DEFAULT_EMPTY_PATH_TRY_FILES_PATH, DEFAULT_HOTLINK_PROTECTION, DEFAULT_LISTEN_IP,
    DEFAULT_LISTEN_PORT, DEFAULT_BUFFER_SIZE, DEFAULT_LOG_DIR_PATH, DEFAULT_PROXY,
    DEFAULT_RESPONSE_HEADER, DEFAULT_ROOT_PATH, DEFAULT_SERVER_NAME,
    DEFAULT_SSL_CERTIFICATE_KEY_PATH, DEFAULT_SSL_CERTIFICATE_PATH, LOCALHOST_LISTEN_IP,
    LOCAL_LISTEN_IP, PROXY_TIMEOUT_SECONDS,
};
use crate::text::{
    chars_to_string, push_all, push_str, replace_all, replace_chars, str_chars,
};

verus! {

/// The views of a list of strings.
pub open spec fn str_views(v: Seq<String>) -> Seq<Seq<char>> {
    v.map_values(|s: String| s@)
}

/// A copy of a list of strings.
pub fn clone_strings(v: &Vec<String>) -> (r: Vec<String>)
    ensures
        r@ == v@,
{
    let r = v.clone();
    assert(r@ =~= v@);
    r
}

/// The settings that serve one bound host name.
#[derive(Debug, Clone)]
pub struct Server {
    pub root_path: String,
    pub log_dir_path: String,
    pub ssl_certificate_path: String,
    pub ssl_certificate_key_path: String,
    pub empty_path_try_files_path: String,
    pub response_header_list: Vec<String>,
    pub proxy: Vec<String>,
    pub proxy_timeout_seconds: usize,
    pub hotlink_protection: Vec<String>,
}

/// The contents of a `Server`.
pub struct ServerView {
    pub root_path: Seq<char>,
    pub log_dir_path: Seq<char>,
    pub ssl_certificate_path: Seq<char>,
    pub ssl_certificate_key_path: Seq<char>,
    pub empty_path_try_files_path: Seq<char>,
    pub response_header_list: Seq<Seq<char>>,
    pub proxy: Seq<Seq<char>>,
    pub proxy_timeout_seconds: usize,
    pub hotlink_protection: Seq<Seq<char>>,
}

impl View for Server {
    type V = ServerView;

    open spec fn view(&self) -> ServerView {
        ServerView {
            root_path: self.root_path@,
            log_dir_path: self.log_dir_path@,
            ssl_certificate_path: self.ssl_certificate_path@,
            ssl_certificate_key_path: self.ssl_certificate_key_path@,
            empty_path_try_files_path: self.empty_path_try_files_path@,
            response_header_list: str_views(self.response_header_list@),
            proxy: str_views(self.proxy@),
            proxy_timeout_seconds: self.proxy_timeout_seconds,
            hotlink_protection: str_views(self.hotlink_protection@),
        }
    }
}

impl Server {
    /// A copy of this server's settings.
    pub fn duplicate(&self) -> (r: Server)
        ensures
            r@ == self@,
    {
        Server {
            root_path: self.root_path.clone(),
            log_dir_path: self.log_dir_path.clone(),
            ssl_certificate_path: self.ssl_certificate_path.clone(),
            ssl_certificate_key_path: self.ssl_certificate_key_path.clone(),
            empty_path_try_files_path: self.empty_path_try_files_path.clone(),
            response_header_list: clone_strings(&self.response_header_list),
            proxy: clone_strings(&self.proxy),
            proxy_timeout_seconds: self.proxy_timeout_seconds,
            hotlink_protection: clone_strings(&self.hotlink_protection),
        }
    }

    /// The text that describes this server's paths, one `name:value` per line.
    pub fn to_display_string(&self) -> (r: String)
        ensures
            r@ == "root_path:"@ + self.root_path@ + "\nlog_dir_path:"@ + self.log_dir_path@
                + "\nssl_certificate_path:"@ + self.ssl_certificate_path@
                + "\nssl_certificate_key_path:"@ + self.ssl_certificate_key_path@
                + "\nempty_path_try_files_path:"@ + self.empty_path_try_files_path@,
    {
        let mut out: Vec<char> = Vec::new();
        push_str(&mut out, "root_path:");
        push_str(&mut out, self.root_path.as_str());
        push_str(&mut out, "\nlog_dir_path:");
        push_str(&mut out, self.log_dir_path.as_str());
        push_str(&mut out, "\nssl_certificate_path:");
        push_str(&mut out, self.ssl_certificate_path.as_str());
        push_str(&mut out, "\nssl_certificate_key_path:");
        push_str(&mut out, self.ssl_certificate_key_path.as_str());
        push_str(&mut out, "\nempty_path_try_files_path:");
        push_str(&mut out, self.empty_path_try_files_path.as_str());
        chars_to_string(&out)
    }
}

/// The servers bound on one listening address, by host name.
#[derive(Debug, Clone)]
pub struct ServerNameBind {
    pub listen_ip: String,
    pub listen_port: usize,
    pub buffer_size: usize,
    pub bind_server_name: Vec<(String, Server)>,
}

/// The whole configuration.
#[derive(Debug, Clone)]
pub struct Config {
    pub server: Vec<ServerNameBind>,
}

/// `s` with every backslash turned into a slash.
pub open spec fn unix_path(s: Seq<char>) -> Seq<char> {
    replace_all(s, seq!['\\'], seq!['/'])
}

/// `s` without one trailing slash.
pub open spec fn drop_trailing_slash(s: Seq<char>) -> Seq<char> {
    if s.len() > 0 && s.last() == '/' {
        s.drop_last()
    } else {
        s
    }
}

/// `s` without one leading slash.
pub open spec fn drop_leading_slash(s: Seq<char>) -> Seq<char> {
    if s.len() > 0 && s[0] == '/' {
        s.drop_first()
    } else {
        s
    }
}

/// The number of leading `.` and `/` characters of `s`.
pub open spec fn dot_slash_count(s: Seq<char>) -> nat
    decreases s.len(),
{
    if s.len() > 0 && (s[0] == '.' || s[0] == '/') {
        1 + dot_slash_count(s.drop_first())
    } else {
        0
    }
}

/// The try-files path with its leading `.` and `/` characters removed.
pub open spec fn try_files_rel(try_files: Seq<char>) -> Seq<char> {
    try_files.skip(dot_slash_count(try_files) as int)
}

/// A server's root directory, with slashes and without a trailing slash.
pub open spec fn root_dir(root: Seq<char>) -> Seq<char> {
    drop_trailing_slash(unix_path(root))
}

/// The full path of a server's try-files resource.
pub open spec fn full_try_files_path(sv: ServerView) -> Seq<char> {
    let rel = try_files_rel(sv.empty_path_try_files_path);
    let t = drop_leading_slash(unix_path(rel));
    let t2 = if t.len() == 0 { rel } else { t };
    root_dir(sv.root_path) + seq!['/'] + t2
}

/// The full path of the resource a request path names: the try-files path
/// where the request path is empty.
pub open spec fn full_file_path(sv: ServerView, request_path: Seq<char>) -> Seq<char> {
    let t = drop_leading_slash(unix_path(request_path));
    if t.len() == 0 {
        full_try_files_path(sv)
    } else {
        root_dir(sv.root_path) + seq!['/'] + t
    }
}

/// `dot_slash_count` is the length of the longest prefix of dots and slashes.
pub proof fn lemma_dot_slash_count(s: Seq<char>, k: int)
    requires
        0 <= k <= s.len(),
        forall|j: int| 0 <= j < k ==> (#[trigger] s[j] == '.' || s[j] == '/'),
        k == s.len() || (s[k] != '.' && s[k] != '/'),
    ensures
        dot_slash_count(s) == k,
    decreases k,
{
    if k > 0 {
        let t = s.drop_first();
        assert forall|j: int| 0 <= j < k - 1 implies (#[trigger] t[j] == '.' || t[j] == '/') by {
            assert(t[j] == s[j + 1]);
        }
        lemma_dot_slash_count(t, k - 1);
    }
}

/// `s` with backslashes turned into slashes.
pub fn unix_chars(s: &[char]) -> (r: Vec<char>)
    ensures
        r@ == unix_path(s@),
{
    let pat = vec!['\\'];
    let rep = vec!['/'];
    assert(pat@ =~= seq!['\\']);
    assert(rep@ =~= seq!['/']);
    replace_chars(s, &pat, &rep)
}

fn drop_trailing_slash_vec(s: Vec<char>) -> (r: Vec<char>)
    ensures
        r@ == drop_trailing_slash(s@),
{
    let mut s = s;
    if s.len() > 0 && s[s.len() - 1] == '/' {
        s.pop();
    }
    s
}

fn drop_leading_slash_vec(s: Vec<char>) -> (r: Vec<char>)
    ensures
        r@ == drop_leading_slash(s@),
{
    let ghost orig = s@;
    let mut s = s;
    if s.len() > 0 && s[0] == '/' {
        s.remove(0);
        assert(s@ =~= drop_leading_slash(orig));
    }
    s
}

/// A server's root directory as characters.
pub fn root_dir_chars(root: &str) -> (r: Vec<char>)
    ensures
        r@ == root_dir(root@),
{
    let c = str_chars(root);
    drop_trailing_slash_vec(unix_chars(&c))
}

impl Config {
    /// The server used where no bound host name matches.
    pub fn get_default_server() -> (r: Server)
        ensures
            r.root_path@ == DEFAULT_ROOT_PATH@,
            r.log_dir_path@ == DEFAULT_LOG_DIR_PATH@,
            r.ssl_certificate_path@ == DEFAULT_SSL_CERTIFICATE_PATH@,
            r.ssl_certificate_key_path@ == DEFAULT_SSL_CERTIFICATE_KEY_PATH@,
            r.empty_path_try_files_path@ == DEFAULT_EMPTY_PATH_TRY_FILES_PATH@,
            r@.response_header_list == seq![DEFAULT_RESPONSE_HEADER@],
            r@.proxy == seq![DEFAULT_PROXY@],
            r.proxy_timeout_seconds == PROXY_TIMEOUT_SECONDS,
            r@.hotlink_protection == seq![DEFAULT_HOTLINK_PROTECTION@],
    {
        let r = Server {
            root_path: DEFAULT_ROOT_PATH.to_owned(),
            log_dir_path: DEFAULT_LOG_DIR_PATH.to_owned(),
            ssl_certificate_path: DEFAULT_SSL_CERTIFICATE_PATH.to_owned(),
            ssl_certificate_key_path: DEFAULT_SSL_CERTIFICATE_KEY_PATH.to_owned(),
            empty_path_try_files_path: DEFAULT_EMPTY_PATH_TRY_FILES_PATH.to_owned(),
            response_header_list: vec![DEFAULT_RESPONSE_HEADER.to_owned()],
            proxy: vec![DEFAULT_PROXY.to_owned()],
            proxy_timeout_seconds: PROXY_TIMEOUT_SECONDS,
            hotlink_protection: vec![DEFAULT_HOTLINK_PROTECTION.to_owned()],
        };
        assert(r@.response_header_list =~= seq![DEFAULT_RESPONSE_HEADER@]);
        assert(r@.proxy =~= seq![DEFAULT_PROXY@]);
        assert(r@.hotlink_protection =~= seq![DEFAULT_HOTLINK_PROTECTION@]);
        r
    }

    /// The listening group written to a fresh configuration: the default
    /// server bound as `localhost`, `127.0.0.1` and `0.0.0.0`.
    pub fn get_default_server_name_bind() -> (r: ServerNameBind)
        ensures
            r.listen_ip@ == DEFAULT_LISTEN_IP@,
            r.listen_port == DEFAULT_LISTEN_PORT,
            r.buffer_size == DEFAULT_BUFFER_SIZE,
            r.bind_server_name@.len() == 3,
            r.bind_server_name@[0].0@ == LOCALHOST_LISTEN_IP@,
            r.bind_server_name@[1].0@ == LOCAL_LISTEN_IP@,
            r.bind_server_name@[2].0@ == DEFAULT_SERVER_NAME@,
            forall|i: int| 0 <= i < 3 ==> #[trigger] r.bind_server_name@[i].1@ == Config::get_default_server_spec(),
    {
        let mut binds: Vec<(String, Server)> = Vec::new();
        binds.push((LOCALHOST_LISTEN_IP.to_owned(), Config::get_default_server()));
        binds.push((LOCAL_LISTEN_IP.to_owned(), Config::get_default_server()));
        binds.push((DEFAULT_SERVER_NAME.to_owned(), Config::get_default_server()));
        ServerNameBind {
            listen_ip: DEFAULT_LISTEN_IP.to_owned(),
            listen_port: DEFAULT_LISTEN_PORT,
            buffer_size: DEFAULT_BUFFER_SIZE,
            bind_server_name: binds,
        }
    }

    /// The contents of the default server.
    pub open spec fn get_default_server_spec() -> ServerView {
        ServerView {
            root_path: DEFAULT_ROOT_PATH@,
            log_dir_path: DEFAULT_LOG_DIR_PATH@,
            ssl_certificate_path: DEFAULT_SSL_CERTIFICATE_PATH@,
            ssl_certificate_key_path: DEFAULT_SSL_CERTIFICATE_KEY_PATH@,
            empty_path_try_files_path: DEFAULT_EMPTY_PATH_TRY_FILES_PATH@,
            response_header_list: seq![DEFAULT_RESPONSE_HEADER@],
            proxy: seq![DEFAULT_PROXY@],
            proxy_timeout_seconds: PROXY_TIMEOUT_SECONDS,
            hotlink_protection: seq![DEFAULT_HOTLINK_PROTECTION@],
        }
    }

    /// The try-files path without its leading `.` and `/` characters.
    pub fn get_try_files_path(server: &Server) -> (r: String)
        ensures
            r@ == try_files_rel(server.empty_path_try_files_path@),
    {
        let v = Self::try_files_chars(server);
        chars_to_string(&v)
    }

    fn try_files_chars(server: &Server) -> (r: Vec<char>)
        ensures
            r@ == try_files_rel(server.empty_path_try_files_path@),
    {
        let s = str_chars(server.empty_path_try_files_path.as_str());
        let mut i: usize = 0;
        while i < s.len() && (s[i] == '.' || s[i] == '/')
            invariant
                i <= s.len(),
                forall|j: int| 0 <= j < i ==> (#[trigger] s@[j] == '.' || s@[j] == '/'),
            decreases s.len() - i,
        {
            i += 1;
        }
        proof {
            lemma_dot_slash_count(s@, i as int);
        }
        let mut r: Vec<char> = Vec::new();
        let mut j = i;
        while j < s.len()
            invariant
                i <= j <= s.len(),
                r@ == s@.subrange(i as int, j as int),
            decreases s.len() - j,
        {
            r.push(s[j]);
            assert(s@.subrange(i as int, j + 1) =~= s@.subrange(i as int, j as int).push(s@[j as int]));
            j += 1;
        }
        assert(r@ =~= s@.skip(i as int));
        r
    }

    /// The full path of the server's try-files resource.
    pub fn get_full_try_files_path(server: &Server) -> (r: String)
        ensures
            r@ == full_try_files_path(server@),
    {
        let v = full_try_files_chars(server);
        chars_to_string(&v)
    }
}

/// The full path of the server's try-files resource, as characters.
pub fn full_try_files_chars(server: &Server) -> (r: Vec<char>)
    ensures
        r@ == full_try_files_path(server@),
{
    let rel = Config::try_files_chars(server);
    let t = drop_leading_slash_vec(unix_chars(&rel));
    let mut out = root_dir_chars(server.root_path.as_str());
    out.push('/');
    if t.len() == 0 {
        push_all(&mut out, &rel);
    } else {
        push_all(&mut out, &t);
    }
    out
}

/// The full path of the resource that `request_path` names on `server`.
pub fn full_file_path_string(server: &Server, request_path: &str) -> (r: String)
    ensures
        r@ == full_file_path(server@, request_path@),
{
    let p = str_chars(request_path);
    let t = drop_leading_slash_vec(unix_chars(&p));
    if t.len() == 0 {
        return Config::get_full_try_files_path(server);
    }
    let mut out = root_dir_chars(server.root_path.as_str());
    out.push('/');
    push_all(&mut out, &t);
    chars_to_string(&out)
}

/// A path with no backslash is its own Unix form.
proof fn lemma_unix_path_plain(s: Seq<char>)
    requires
        forall|i: int| 0 <= i < s.len() ==> s[i] != '\\',
    ensures
        unix_path(s) == s,
{
    assert forall|j: int| 0 <= j implies !crate::text::occurs_at(s, seq!['\\'], j) by {
        if j < s.len() {
            assert(s.subrange(j, j + 1)[0] == s[j]);
            assert(s[j] != '\\');
        }
    }
    crate::text::lemma_find_str_none(s, seq!['\\']);
    crate::text::lemma_split_step(s, seq!['\\']);
}

/// An empty request path, or one made of a single slash, is served the
/// server's try-files resource.
pub proof fn law_empty_path_serves_try_files(sv: ServerView)
    ensures
        full_file_path(sv, Seq::empty()) == full_try_files_path(sv),
        full_file_path(sv, seq!['/']) == full_try_files_path(sv),
{
    lemma_unix_path_plain(Seq::empty());
    lemma_unix_path_plain(seq!['/']);
    assert(seq!['/'].drop_first() =~= Seq::<char>::empty());
}

} // verus!
