//! Which resource paths may be served.
use vstd::prelude::*;
use crate::config::{str_views, Server};
use crate::global::DANGER_PATH;
use crate::outside::{regex_compiles, regex_match, regex_matches};
use crate::text::{contains_str, find_chars, str_chars};

verus! {

/// No hotlink pattern refuses `path`: each compiles and none matches.
pub open spec fn hotlink_ok(patterns: Seq<Seq<char>>, path: Seq<char>) -> bool
    decreases patterns.len(),
{
    if patterns.len() == 0 {
        true
    } else if !regex_compiles(patterns[0]) || regex_matches(patterns[0], path) {
        false
    } else {
        hotlink_ok(patterns.drop_first(), path)
    }
}

/// A path may be served: it holds no `../`, and no hotlink pattern refuses it.
pub open spec fn path_safe(hotlink: Seq<Seq<char>>, path: Seq<char>) -> bool {
    !contains_str(path, DANGER_PATH@) && hotlink_ok(hotlink, path)
}

/// Whether `source_path` may be served by `server`: it holds no `../`, and
/// each of the server's hotlink patterns compiles and does not match it.
pub fn check_source_full_path_safe(server: &Server, source_path: &str) -> (r: bool)
    ensures
        r == path_safe(server@.hotlink_protection, source_path@),
        r == (!contains_str(source_path@, DANGER_PATH@) && forall|k: int|
            0 <= k < server@.hotlink_protection.len() ==> regex_compiles(#[trigger] server@.hotlink_protection[k])
                && !regex_matches(server@.hotlink_protection[k], source_path@)),
{
    proof {
        law_path_safe(server@.hotlink_protection, source_path@);
    }
    let p = str_chars(source_path);
    let d = str_chars(DANGER_PATH);
    if find_chars(&p, &d).is_some() {
        return false;
    }
    let ghost all = server@.hotlink_protection;
    let mut i: usize = 0;
    assert(all.skip(0) =~= all);
    while i < server.hotlink_protection.len()
        invariant
            i <= server.hotlink_protection@.len(),
            all == server@.hotlink_protection,
            hotlink_ok(all, source_path@) == hotlink_ok(all.skip(i as int), source_path@),
        decreases server.hotlink_protection.len() - i,
    {
        let ghost rest = all.skip(i as int);
        assert(rest[0] == server.hotlink_protection@[i as int]@);
        assert(rest.drop_first() =~= all.skip(i + 1));
        match regex_match(server.hotlink_protection[i].as_str(), source_path) {
            Some(true) => {
                return false;
            },
            Some(false) => {},
            None => {
                return false;
            },
        }
        i += 1;
    }
    true
}

/// Hotlink protection refuses a path exactly when one of the patterns,
/// any of them, fails to compile or matches the path.
pub proof fn law_hotlink_every_pattern(patterns: Seq<Seq<char>>, path: Seq<char>)
    ensures
        hotlink_ok(patterns, path) <==> forall|k: int| 0 <= k < patterns.len()
            ==> regex_compiles(#[trigger] patterns[k]) && !regex_matches(patterns[k], path),
    decreases patterns.len(),
{
    if patterns.len() > 0 {
        let rest = patterns.drop_first();
        law_hotlink_every_pattern(rest, path);
        assert forall|k: int| 0 <= k < rest.len() implies #[trigger] rest[k] == patterns[k + 1] by {}
        if forall|k: int| 0 <= k < patterns.len()
            ==> regex_compiles(#[trigger] patterns[k]) && !regex_matches(patterns[k], path) {
            assert forall|k: int| 0 <= k < rest.len()
                implies regex_compiles(#[trigger] rest[k]) && !regex_matches(rest[k], path) by {
                assert(rest[k] == patterns[k + 1]);
            }
        } else {
            let k = choose|k: int| 0 <= k < patterns.len()
                && !(regex_compiles(#[trigger] patterns[k]) && !regex_matches(patterns[k], path));
            if k > 0 {
                assert(rest[k - 1] == patterns[k]);
            }
        }
    }
}

/// A path is served exactly when it holds no `../` and every hotlink
/// pattern compiles and does not match it.
pub proof fn law_path_safe(patterns: Seq<Seq<char>>, path: Seq<char>)
    ensures
        path_safe(patterns, path) <==> !contains_str(path, DANGER_PATH@) && forall|k: int|
            0 <= k < patterns.len() ==> regex_compiles(#[trigger] patterns[k]) && !regex_matches(patterns[k], path),
{
    law_hotlink_every_pattern(patterns, path);
}

} // verus!
