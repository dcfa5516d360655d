//! The first request handler: resource paths and the proxy decision.
use vstd::prelude::*;
use crate::config::{full_file_path, full_file_path_string, Server};
use crate::global::HTTP_HTTPS_REGEX;
use crate::outside::regex_match;
use crate::request::request::{proxy_check_ok, safe_proxies, Request};

verus! {

/// The first request handler.
pub struct Base {}

impl Base {
    /// The full path of the resource that `request_path` names on `server`.
    pub fn get_full_file_path(server: &Server, request_path: &String) -> (r: String)
        ensures
            r@ == full_file_path(server@, request_path@),
    {
        full_file_path_string(server, request_path.as_str())
    }

    /// Whether requests to `server` are forwarded: it has a usable (`http`
    /// or `https`) proxy address.
    pub fn judge_need_proxy(server: &Server) -> (r: bool)
        requires
            proxy_check_ok(server@),
        ensures
            r == (safe_proxies(server@.proxy).len() > 0),
    {
        if server.proxy.len() == 0 {
            return false;
        }
        Request::safe_proxy_list(server).len() > 0
    }

    /// `judge_need_proxy`, or `None` where the server has proxy addresses and
    /// the address pattern does not compile.
    pub fn try_judge_need_proxy(server: &Server) -> (r: Option<bool>)
        ensures
            r is Some <==> proxy_check_ok(server@),
            r matches Some(b) ==> b == (safe_proxies(server@.proxy).len() > 0),
    {
        if server.proxy.len() > 0 && regex_match(HTTP_HTTPS_REGEX, "").is_none() {
            return None;
        }
        Some(Self::judge_need_proxy(server))
    }
}

} // verus!
