//! Routing a request to the server bound to its host, and choosing a proxy.
use vstd::prelude::*;
use crate::config::{full_file_path, full_file_path_string, Config, Server, ServerView};
use crate::file_safe::{check_source_full_path_safe, path_safe};
use crate::global::{DANGER_PATH, HOST, HTTP_HTTPS_REGEX, NOT_PROXY};
use crate::text::contains_str;
use crate::http::request::{HttpRequest, HttpRequestView};
use crate::outside::{random_index, regex_compiles, regex_match, regex_matches};
use crate::strmap::{lookup, lookup_or_empty};

verus! {

/// A proxy address is usable: an `http` or `https` URL.
pub open spec fn proxy_ok(p: Seq<char>) -> bool {
    regex_matches(HTTP_HTTPS_REGEX@, p)
}

/// The usable proxy addresses, in order.
pub open spec fn safe_proxies(list: Seq<Seq<char>>) -> Seq<Seq<char>>
    decreases list.len(),
{
    if list.len() == 0 {
        Seq::empty()
    } else if proxy_ok(list.last()) {
        safe_proxies(list.drop_last()).push(list.last())
    } else {
        safe_proxies(list.drop_last())
    }
}

/// The proxy check can run: there is nothing to check, or its pattern
/// compiles.
pub open spec fn proxy_check_ok(sv: ServerView) -> bool {
    sv.proxy.len() == 0 || regex_compiles(HTTP_HTTPS_REGEX@)
}

/// The position of the first binding whose host name is `host`, from `i` on.
pub open spec fn bound_from(keys: Seq<Seq<char>>, host: Seq<char>, i: int) -> Option<int>
    decreases keys.len() - i,
{
    if i < 0 || i >= keys.len() {
        None
    } else if keys[i] == host {
        Some(i)
    } else {
        bound_from(keys, host, i + 1)
    }
}

/// The host names of a list of bindings.
pub open spec fn binding_keys(map: Seq<(String, Server)>) -> Seq<Seq<char>> {
    map.map_values(|e: (String, Server)| e.0@)
}

/// The server a request is served by, and whether its host is bound.
pub open spec fn routed_server(map: Seq<(String, Server)>, req: HttpRequestView) -> (ServerView, bool) {
    match lookup(req.headers, HOST@) {
        Some(h) => match bound_from(binding_keys(map), h, 0) {
            Some(i) => (map[i].1@, true),
            None => (Config::get_default_server_spec(), false),
        },
        None => (Config::get_default_server_spec(), false),
    }
}

/// Where a request goes: its server, whether it may be served (its host is
/// bound and its resource path is safe), and the resource path.
pub struct Route {
    pub server: Server,
    pub is_safe_request: bool,
    pub file_path: String,
}

/// The route of a request, as contents.
pub open spec fn route_spec(map: Seq<(String, Server)>, req: HttpRequestView) -> (ServerView, bool, Seq<char>) {
    let (sv, found) = routed_server(map, req);
    let fp = full_file_path(sv, req.path);
    (sv, found && path_safe(sv.hotlink_protection, fp), fp)
}

/// How a routed request's resource is got.
pub enum ResourcePlan {
    /// The request may not be served; the not-found page answers it.
    NotServed,
    /// The resource file is read.
    ReadFile,
    /// The request is forwarded to the proxy address at this position.
    Forward(usize),
    /// The chosen proxy address is not among the server's.
    UnknownProxy,
}

/// Handles requests; see `route_request` and `judge_need_proxy`.
pub struct Request {}

impl Request {
    /// The full path of the resource that `request_path` names on `server`.
    pub fn get_full_file_path(server: &Server, request_path: &str) -> (r: String)
        ensures
            r@ == full_file_path(server@, request_path@),
    {
        full_file_path_string(server, request_path)
    }

    /// The proxy addresses of `server` that are `http` or `https` URLs.
    pub fn safe_proxy_list(server: &Server) -> (r: Vec<String>)
        requires
            proxy_check_ok(server@),
        ensures
            crate::config::str_views(r@) == safe_proxies(server@.proxy),
    {
        let ghost all = server@.proxy;
        let mut out: Vec<String> = Vec::new();
        let mut i: usize = 0;
        while i < server.proxy.len()
            invariant
                i <= server.proxy@.len(),
                all == server@.proxy,
                proxy_check_ok(server@),
                crate::config::str_views(out@) == safe_proxies(all.take(i as int)),
            decreases server.proxy.len() - i,
        {
            let ghost before = out@;
            assert(all.take(i + 1).drop_last() =~= all.take(i as int));
            assert(all.take(i + 1).last() == server.proxy@[i as int]@);
            match regex_match(HTTP_HTTPS_REGEX, server.proxy[i].as_str()) {
                Some(true) => {
                    out.push(server.proxy[i].clone());
                    assert(crate::config::str_views(out@) =~= crate::config::str_views(before).push(server.proxy@[i as int]@));
                },
                _ => {},
            }
            i += 1;
        }
        assert(all.take(server.proxy@.len() as int) =~= all);
        out
    }

    /// The proxy to forward to: `NOT_PROXY` where the server has no usable
    /// proxy address, else one of the usable ones, picked at random.
    pub fn judge_need_proxy(server: &Server) -> (r: String)
        requires
            proxy_check_ok(server@),
        ensures
            safe_proxies(server@.proxy).len() == 0 ==> r@ == NOT_PROXY@,
            safe_proxies(server@.proxy).len() > 0 ==> exists|i: int|
                0 <= i < safe_proxies(server@.proxy).len() && r@ == #[trigger] safe_proxies(server@.proxy)[i],
    {
        if server.proxy.len() == 0 {
            return NOT_PROXY.to_owned();
        }
        let safe = Self::safe_proxy_list(server);
        if safe.len() == 0 {
            return NOT_PROXY.to_owned();
        }
        let idx = random_index(safe.len());
        let r = Self::pick_proxy(&safe, idx);
        assert(crate::config::str_views(safe@)[idx as int] == r@);
        r
    }

    /// The proxy address at `index` of a list of usable addresses.
    pub fn pick_proxy(list: &Vec<String>, index: usize) -> (r: String)
        requires
            index < list@.len(),
        ensures
            r@ == list@[index as int]@,
    {
        list[index].clone()
    }

    /// The position of the first of the server's proxy addresses equal to
    /// `proxy`.
    pub fn proxy_position(server: &Server, proxy: &String) -> (r: Option<usize>)
        ensures
            match r {
                Some(i) => i < server.proxy@.len() && server.proxy@[i as int]@ == proxy@
                    && forall|j: int| 0 <= j < i ==> #[trigger] server.proxy@[j]@ != proxy@,
                None => forall|j: int| 0 <= j < server.proxy@.len() ==> #[trigger] server.proxy@[j]@ != proxy@,
            },
    {
        let mut i: usize = 0;
        while i < server.proxy.len()
            invariant
                i <= server.proxy@.len(),
                forall|j: int| 0 <= j < i ==> #[trigger] server.proxy@[j]@ != proxy@,
            decreases server.proxy.len() - i,
        {
            if server.proxy[i] == *proxy {
                return Some(i);
            }
            i += 1;
        }
        None
    }

    /// `judge_need_proxy`, or `None` where the server has proxy addresses and
    /// the address pattern does not compile.
    pub fn try_judge_need_proxy(server: &Server) -> (r: Option<String>)
        ensures
            r is Some <==> proxy_check_ok(server@),
            r matches Some(p) ==> (safe_proxies(server@.proxy).len() == 0 ==> p@ == NOT_PROXY@),
            r matches Some(p) ==> (safe_proxies(server@.proxy).len() > 0 ==> exists|i: int|
                0 <= i < safe_proxies(server@.proxy).len() && p@ == #[trigger] safe_proxies(server@.proxy)[i]),
    {
        if server.proxy.len() > 0 && regex_match(HTTP_HTTPS_REGEX, "").is_none() {
            return None;
        }
        Some(Self::judge_need_proxy(server))
    }

    /// The route of a request: the server bound to its `host` header (the
    /// default server where none is), whether it may be served, and the
    /// resource path.
    pub fn route_request(server_map: &Vec<(String, Server)>, http_request: &HttpRequest) -> (r: Route)
        ensures
            (r.server@, r.is_safe_request, r.file_path@) == route_spec(server_map@, http_request@),
            lookup(http_request@.headers, HOST@) is None ==> r.server@ == Config::get_default_server_spec()
                && !r.is_safe_request && r.file_path@ == full_file_path(Config::get_default_server_spec(), http_request@.path),
    {
        let mut server = Config::get_default_server();
        let mut found = false;
        match http_request.headers.get(HOST) {
            Some(host) => {
                let ghost keys = binding_keys(server_map@);
                let mut i: usize = 0;
                let mut at: Option<usize> = None;
                while i < server_map.len()
                    invariant_except_break
                        i <= server_map@.len(),
                        at is None,
                        bound_from(keys, host@, 0) == bound_from(keys, host@, i as int),
                    invariant
                        keys == binding_keys(server_map@),
                    ensures
                        match at {
                            Some(j) => j < server_map@.len() && bound_from(keys, host@, 0) == Some(j as int),
                            None => bound_from(keys, host@, 0) is None,
                        },
                    decreases server_map.len() - i,
                {
                    assert(keys[i as int] == server_map@[i as int].0@);
                    if server_map[i].0 == *host {
                        at = Some(i);
                        break;
                    }
                    i += 1;
                }
                match at {
                    Some(j) => {
                        server = server_map[j].1.duplicate();
                        found = true;
                    },
                    None => {},
                }
            },
            None => {},
        }
        assert((server@, found) == routed_server(server_map@, http_request@));
        let file_path = full_file_path_string(&server, http_request.path.as_str());
        let safe = found && check_source_full_path_safe(&server, file_path.as_str());
        Route { server, is_safe_request: safe, file_path }
    }

    /// How to get the resource of a routed request, given the proxy address
    /// chosen for its server (`NOT_PROXY` for none): nothing for a request
    /// that may not be served, the file where no proxy is chosen, else a
    /// forward to the first of the server's addresses equal to the chosen one.
    pub fn plan_resource(server: &Server, is_safe_request: bool, proxy: &String) -> (r: ResourcePlan)
        ensures
            !is_safe_request ==> r is NotServed,
            is_safe_request && proxy@ == NOT_PROXY@ ==> r is ReadFile,
            is_safe_request && proxy@ != NOT_PROXY@ ==> match r {
                ResourcePlan::Forward(i) => i < server.proxy@.len() && server.proxy@[i as int]@ == proxy@
                    && forall|j: int| 0 <= j < i ==> #[trigger] server.proxy@[j]@ != proxy@,
                ResourcePlan::UnknownProxy => forall|j: int| 0 <= j < server.proxy@.len() ==> #[trigger] server.proxy@[j]@ != proxy@,
                _ => false,
            },
    {
        if !is_safe_request {
            return ResourcePlan::NotServed;
        }
        if *proxy == NOT_PROXY.to_owned() {
            return ResourcePlan::ReadFile;
        }
        match Self::proxy_position(server, proxy) {
            Some(i) => ResourcePlan::Forward(i),
            None => ResourcePlan::UnknownProxy,
        }
    }
}

/// A request is never served where its host is not bound, nor where its
/// resource path holds `../`.
pub proof fn law_unserved_requests(map: Seq<(String, Server)>, req: HttpRequestView)
    ensures
        !routed_server(map, req).1 ==> !route_spec(map, req).1,
        contains_str(route_spec(map, req).2, DANGER_PATH@) ==> !route_spec(map, req).1,
{
}

/// A request whose host is bound goes to the server of the first binding
/// of that host, and is served exactly when its resource path is safe for
/// that server.
pub proof fn law_bound_host_routed(map: Seq<(String, Server)>, req: HttpRequestView, h: Seq<char>, i: int)
    requires
        lookup(req.headers, HOST@) == Some(h),
        bound_from(binding_keys(map), h, 0) == Some(i),
    ensures
        route_spec(map, req).0 == map[i].1@,
        route_spec(map, req).1 == path_safe(map[i].1@.hotlink_protection, route_spec(map, req).2),
        route_spec(map, req).2 == full_file_path(map[i].1@, req.path),
{
}

/// `bound_from` finds the first binding of `host` from `i` on.
proof fn lemma_bound_from(keys: Seq<Seq<char>>, host: Seq<char>, i: int)
    requires
        0 <= i <= keys.len(),
    ensures
        match bound_from(keys, host, i) {
            Some(k) => i <= k < keys.len() && keys[k] == host && forall|j: int| i <= j < k ==> #[trigger] keys[j] != host,
            None => forall|j: int| i <= j < keys.len() ==> #[trigger] keys[j] != host,
        },
    decreases keys.len() - i,
{
    if i < keys.len() && keys[i] != host {
        lemma_bound_from(keys, host, i + 1);
    }
}

/// A request whose `host` header is missing, or names no binding, goes to
/// the default server, is not served, and names its resource under the
/// default server's root; one whose host is bound goes to the server of the
/// first binding with that host name.
pub proof fn law_route_by_host(map: Seq<(String, Server)>, req: HttpRequestView)
    ensures
        (lookup(req.headers, HOST@) is None || forall|j: int| 0 <= j < map.len()
            ==> Some(#[trigger] map[j].0@) != lookup(req.headers, HOST@)) ==> {
            &&& route_spec(map, req).0 == Config::get_default_server_spec()
            &&& !route_spec(map, req).1
            &&& route_spec(map, req).2 == full_file_path(Config::get_default_server_spec(), req.path)
        },
        forall|i: int| 0 <= i < map.len() && lookup(req.headers, HOST@) == Some(#[trigger] map[i].0@)
            && (forall|j: int| 0 <= j < i ==> map[j].0@ != map[i].0@) ==> {
            &&& route_spec(map, req).0 == map[i].1@
            &&& route_spec(map, req).2 == full_file_path(map[i].1@, req.path)
        },
{
    let keys = binding_keys(map);
    lemma_bound_from(keys, lookup_or_empty(req.headers, HOST@), 0);
    assert forall|j: int| 0 <= j < map.len() implies #[trigger] keys[j] == map[j].0@ by {}
    match lookup(req.headers, HOST@) {
        Some(h) => {
            assert(lookup_or_empty(req.headers, HOST@) == h);
            if forall|j: int| 0 <= j < map.len() ==> Some(#[trigger] map[j].0@) != lookup(req.headers, HOST@) {
                assert forall|j: int| 0 <= j < keys.len() implies #[trigger] keys[j] != h by {
                    assert(keys[j] == map[j].0@);
                    assert(Some(map[j].0@) != Some(h));
                }
                if bound_from(keys, h, 0) is Some {
                    let k = bound_from(keys, h, 0)->0;
                    assert(keys[k] == h);
                }
            }
            assert forall|i: int| 0 <= i < map.len() && lookup(req.headers, HOST@) == Some(#[trigger] map[i].0@)
                && (forall|j: int| 0 <= j < i ==> map[j].0@ != map[i].0@) implies {
                &&& route_spec(map, req).0 == map[i].1@
                &&& route_spec(map, req).2 == full_file_path(map[i].1@, req.path)
            } by {
                assert(keys[i] == h);
                let k = bound_from(keys, h, 0)->0;
                if k < i {
                    assert(keys[k] == map[k].0@);
                } else if k > i {
                    assert(keys[i] != h);
                }
            }
        },
        None => {},
    }
}

} // verus!
