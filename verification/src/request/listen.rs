//! Grouping the configured host bindings by listening port, and choosing the
//! listeners to open.
use vstd::prelude::*;
use crate::config::{Config, Server, ServerNameBind, ServerView};
use crate::text::{chars_to_string, decimal, push_decimal, str_chars};

verus! {

/// Host names with the servers that answer them, as contents.
pub open spec fn binds_view(m: Seq<(String, Server)>) -> Seq<(Seq<char>, ServerView)> {
    m.map_values(|e: (String, Server)| (e.0@, e.1@))
}

/// The host table of one listening port.
pub struct PortServers {
    pub port: usize,
    pub server_map: Vec<(String, Server)>,
}

/// A port table as contents: each port with its host table.
pub open spec fn table_view(t: Seq<PortServers>) -> Seq<(usize, Seq<(Seq<char>, ServerView)>)> {
    t.map_values(|p: PortServers| (p.port, binds_view(p.server_map@)))
}

/// The bindings of one listening group: its port, each host name and its
/// server, in order.
pub open spec fn group_bindings(g: ServerNameBind) -> Seq<(usize, Seq<char>, ServerView)> {
    g.bind_server_name@.map_values(|e: (String, Server)| (g.listen_port, e.0@, e.1@))
}

/// The bindings of all listening groups, group after group.
pub open spec fn all_bindings(gs: Seq<ServerNameBind>) -> Seq<(usize, Seq<char>, ServerView)>
    decreases gs.len(),
{
    if gs.len() == 0 {
        Seq::empty()
    } else {
        all_bindings(gs.drop_last()) + group_bindings(gs.last())
    }
}

/// The first position, from `i` on, of the entry for `port`.
pub open spec fn port_pos_from(t: Seq<(usize, Seq<(Seq<char>, ServerView)>)>, port: usize, i: int) -> Option<int>
    decreases t.len() - i,
{
    if i < 0 || i >= t.len() {
        None
    } else if t[i].0 == port {
        Some(i)
    } else {
        port_pos_from(t, port, i + 1)
    }
}

/// The first position, from `i` on, of the entry for host name `key`.
pub open spec fn host_pos_from(m: Seq<(Seq<char>, ServerView)>, key: Seq<char>, i: int) -> Option<int>
    decreases m.len() - i,
{
    if i < 0 || i >= m.len() {
        None
    } else if m[i].0 == key {
        Some(i)
    } else {
        host_pos_from(m, key, i + 1)
    }
}

/// A host name with `:` and the port appended.
pub open spec fn host_with_port(key: Seq<char>, port: usize) -> Seq<char> {
    key + seq![':'] + decimal(port as nat)
}

/// `key` set to `sv` in a host table: replaced in place where present,
/// appended where not.
pub open spec fn put_host(m: Seq<(Seq<char>, ServerView)>, key: Seq<char>, sv: ServerView) -> Seq<(Seq<char>, ServerView)> {
    match host_pos_from(m, key, 0) {
        Some(h) => m.update(h, (key, sv)),
        None => m.push((key, sv)),
    }
}

/// One binding added to a port table. A host name new on its port is added
/// both as it is and with the port appended; a name the port already has is
/// left as it is.
pub open spec fn add_binding(
    t: Seq<(usize, Seq<(Seq<char>, ServerView)>)>,
    b: (usize, Seq<char>, ServerView),
) -> Seq<(usize, Seq<(Seq<char>, ServerView)>)> {
    match port_pos_from(t, b.0, 0) {
        Some(p) => if host_pos_from(t[p].1, b.1, 0) is Some {
            t
        } else {
            t.update(p, (b.0, put_host(t[p].1.push((b.1, b.2)), host_with_port(b.1, b.0), b.2)))
        },
        None => t.push((b.0, seq![(b.1, b.2), (host_with_port(b.1, b.0), b.2)])),
    }
}

/// The port table of a list of bindings, added in order.
pub open spec fn port_table(bs: Seq<(usize, Seq<char>, ServerView)>) -> Seq<(usize, Seq<(Seq<char>, ServerView)>)>
    decreases bs.len(),
{
    if bs.len() == 0 {
        Seq::empty()
    } else {
        add_binding(port_table(bs.drop_last()), bs.last())
    }
}

/// A copy of a host table.
fn clone_binds(m: &Vec<(String, Server)>) -> (r: Vec<(String, Server)>)
    ensures
        binds_view(r@) == binds_view(m@),
{
    let mut r: Vec<(String, Server)> = Vec::new();
    let mut i: usize = 0;
    while i < m.len()
        invariant
            i <= m@.len(),
            r@.len() == i,
            forall|k: int| 0 <= k < i ==> #[trigger] r@[k].0@ == m@[k].0@ && r@[k].1@ == m@[k].1@,
        decreases m.len() - i,
    {
        let e = (m[i].0.clone(), m[i].1.duplicate());
        r.push(e);
        i += 1;
    }
    assert(binds_view(r@) =~= binds_view(m@));
    r
}

/// The position of the entry for `port` in a port table.
fn find_port(t: &Vec<PortServers>, port: usize) -> (r: Option<usize>)
    ensures
        match r {
            Some(p) => p < t@.len() && port_pos_from(table_view(t@), port, 0) == Some(p as int),
            None => port_pos_from(table_view(t@), port, 0) is None,
        },
{
    let ghost tv = table_view(t@);
    let mut i: usize = 0;
    while i < t.len()
        invariant
            i <= t@.len(),
            tv == table_view(t@),
            port_pos_from(tv, port, 0) == port_pos_from(tv, port, i as int),
        decreases t.len() - i,
    {
        if t[i].port == port {
            return Some(i);
        }
        i += 1;
    }
    None
}

/// The position of the entry for `key` in a host table.
fn host_index(m: &Vec<(String, Server)>, key: &String) -> (r: Option<usize>)
    ensures
        match r {
            Some(h) => h < m@.len() && host_pos_from(binds_view(m@), key@, 0) == Some(h as int),
            None => host_pos_from(binds_view(m@), key@, 0) is None,
        },
{
    let ghost mv = binds_view(m@);
    let mut i: usize = 0;
    while i < m.len()
        invariant
            i <= m@.len(),
            mv == binds_view(m@),
            host_pos_from(mv, key@, 0) == host_pos_from(mv, key@, i as int),
        decreases m.len() - i,
    {
        if m[i].0 == *key {
            return Some(i);
        }
        i += 1;
    }
    None
}

/// Sets `key` to `server` in a host table.
fn put_host_exec(m: &mut Vec<(String, Server)>, key: String, server: &Server)
    ensures
        binds_view(final(m)@) == put_host(binds_view(old(m)@), key@, server@),
{
    let ghost mv = binds_view(m@);
    let ghost kv = key@;
    match host_index(m, &key) {
        Some(h) => {
            m.set(h, (key, server.duplicate()));
            assert(binds_view(m@) =~= mv.update(h as int, (kv, server@)));
        },
        None => {
            m.push((key, server.duplicate()));
            assert(binds_view(m@) =~= mv.push((kv, server@)));
        },
    }
}

/// Adds the binding of `key` on `port` to a port table.
fn add_binding_to(t: &mut Vec<PortServers>, port: usize, key: &String, server: &Server)
    ensures
        table_view(final(t)@) == add_binding(table_view(old(t)@), (port, key@, server@)),
{
    let ghost tv = table_view(t@);
    match find_port(t, port) {
        Some(p) => {
            if host_index(&t[p].server_map, key).is_none() {
                let mut m = clone_binds(&t[p].server_map);
                m.push((key.clone(), server.duplicate()));
                assert(binds_view(m@) =~= tv[p as int].1.push((key@, server@)));
                let mut with_port = str_chars(key.as_str());
                with_port.push(':');
                push_decimal(&mut with_port, port);
                assert(with_port@ =~= host_with_port(key@, port));
                put_host_exec(&mut m, chars_to_string(&with_port), server);
                let ghost m2 = put_host(tv[p as int].1.push((key@, server@)), host_with_port(key@, port), server@);
                t.set(p, PortServers { port, server_map: m });
                assert(table_view(t@) =~= tv.update(p as int, (port, m2)));
            }
        },
        None => {
            let mut with_port = str_chars(key.as_str());
            with_port.push(':');
            push_decimal(&mut with_port, port);
            assert(with_port@ =~= host_with_port(key@, port));
            let k2 = chars_to_string(&with_port);
            let mut m: Vec<(String, Server)> = Vec::new();
            m.push((key.clone(), server.duplicate()));
            m.push((k2, server.duplicate()));
            assert(binds_view(m@) =~= seq![(key@, server@), (host_with_port(key@, port), server@)]);
            t.push(PortServers { port, server_map: m });
            assert(table_view(t@) =~= tv.push((port, seq![(key@, server@), (host_with_port(key@, port), server@)])));
        },
    }
}

/// The host tables of all listening ports: each port, in the order it is
/// first configured, with the host names bound on it.
pub fn group_by_port(config: &Config) -> (r: Vec<PortServers>)
    ensures
        table_view(r@) == port_table(all_bindings(config.server@)),
{
    let ghost gs = config.server@;
    let mut t: Vec<PortServers> = Vec::new();
    let mut i: usize = 0;
    while i < config.server.len()
        invariant
            i <= gs.len(),
            gs == config.server@,
            table_view(t@) == port_table(all_bindings(gs.take(i as int))),
        decreases config.server.len() - i,
    {
        let g = &config.server[i];
        let ghost before = all_bindings(gs.take(i as int));
        let ghost gb = group_bindings(*g);
        assert(before + gb.take(0) =~= before);
        let mut j: usize = 0;
        while j < g.bind_server_name.len()
            invariant
                j <= g.bind_server_name@.len(),
                gb == group_bindings(*g),
                table_view(t@) == port_table(before + gb.take(j as int)),
            decreases g.bind_server_name.len() - j,
        {
            let ghost next = before + gb.take(j + 1);
            assert(next.drop_last() =~= before + gb.take(j as int));
            assert(next.last() == (g.listen_port, g.bind_server_name@[j as int].0@, g.bind_server_name@[j as int].1@));
            add_binding_to(&mut t, g.listen_port, &g.bind_server_name[j].0, &g.bind_server_name[j].1);
            j += 1;
        }
        assert(gb.take(gb.len() as int) =~= gb);
        assert(gs.take(i + 1).drop_last() =~= gs.take(i as int));
        i += 1;
    }
    assert(gs.take(gs.len() as int) =~= gs);
    t
}

/// A listener to open: the address of its group, the group's read buffer
/// size, the server of the group's first host name, and the host table of
/// its port.
pub struct Listener {
    pub listen_ip: String,
    pub port: usize,
    pub buffer_size: usize,
    pub server: Server,
    pub server_map: Vec<(String, Server)>,
}

/// The contents of a `Listener`.
pub struct ListenerView {
    pub listen_ip: Seq<char>,
    pub port: usize,
    pub buffer_size: usize,
    pub server: ServerView,
    pub server_map: Seq<(Seq<char>, ServerView)>,
}

impl View for Listener {
    type V = ListenerView;

    open spec fn view(&self) -> ListenerView {
        ListenerView {
            listen_ip: self.listen_ip@,
            port: self.port,
            buffer_size: self.buffer_size,
            server: self.server@,
            server_map: binds_view(self.server_map@),
        }
    }
}

/// A list of listeners as contents.
pub open spec fn listeners_view(v: Seq<Listener>) -> Seq<ListenerView> {
    v.map_values(|l: Listener| l@)
}

/// The host table of `port` in a port table (empty where the port has none).
pub open spec fn port_routes(t: Seq<(usize, Seq<(Seq<char>, ServerView)>)>, port: usize) -> Seq<(Seq<char>, ServerView)> {
    match port_pos_from(t, port, 0) {
        Some(p) => t[p].1,
        None => Seq::empty(),
    }
}

/// Some listener of the list is on `port`.
pub open spec fn port_listened(ls: Seq<ListenerView>, port: usize) -> bool {
    exists|k: int| 0 <= k < ls.len() && #[trigger] ls[k].port == port
}

/// The listeners of a list of groups, against the port table `t`: one for
/// each group that binds a host name on a port that no earlier group
/// listens on.
pub open spec fn plan_from(gs: Seq<ServerNameBind>, t: Seq<(usize, Seq<(Seq<char>, ServerView)>)>) -> Seq<ListenerView>
    decreases gs.len(),
{
    if gs.len() == 0 {
        Seq::empty()
    } else {
        let prev = plan_from(gs.drop_last(), t);
        let g = gs.last();
        if g.bind_server_name@.len() > 0 && !port_listened(prev, g.listen_port) {
            prev.push(ListenerView {
                listen_ip: g.listen_ip@,
                port: g.listen_port,
                buffer_size: g.buffer_size,
                server: g.bind_server_name@[0].1@,
                server_map: port_routes(t, g.listen_port),
            })
        } else {
            prev
        }
    }
}

/// The listeners of a configuration, each with the host table of its port.
pub open spec fn listener_plan(gs: Seq<ServerNameBind>) -> Seq<ListenerView> {
    plan_from(gs, port_table(all_bindings(gs)))
}

/// Whether some listener of the list is on `port`.
fn listens_on(ls: &Vec<Listener>, port: usize) -> (r: bool)
    ensures
        r == port_listened(listeners_view(ls@), port),
{
    let mut i: usize = 0;
    while i < ls.len()
        invariant
            i <= ls@.len(),
            forall|k: int| 0 <= k < i ==> #[trigger] ls@[k].port != port,
        decreases ls.len() - i,
    {
        if ls[i].port == port {
            assert(listeners_view(ls@)[i as int].port == port);
            return true;
        }
        i += 1;
    }
    assert forall|k: int| 0 <= k < listeners_view(ls@).len() implies #[trigger] listeners_view(ls@)[k].port != port by {
        assert(ls@[k].port != port);
    }
    false
}

/// The listeners to open for a configuration: one per port, opened for the
/// first group that binds a host name on it, each with the host table of
/// its port.
pub fn plan_listeners(config: &Config) -> (r: Vec<Listener>)
    ensures
        listeners_view(r@) == listener_plan(config.server@),
{
    let table = group_by_port(config);
    let ghost tv = table_view(table@);
    let ghost gs = config.server@;
    let mut out: Vec<Listener> = Vec::new();
    let mut i: usize = 0;
    while i < config.server.len()
        invariant
            i <= gs.len(),
            gs == config.server@,
            tv == table_view(table@),
            tv == port_table(all_bindings(gs)),
            listeners_view(out@) == plan_from(gs.take(i as int), tv),
        decreases config.server.len() - i,
    {
        let g = &config.server[i];
        assert(gs.take(i + 1).drop_last() =~= gs.take(i as int));
        assert(gs.take(i + 1).last() == *g);
        if g.bind_server_name.len() > 0 && !listens_on(&out, g.listen_port) {
            let routes = match find_port(&table, g.listen_port) {
                Some(p) => clone_binds(&table[p].server_map),
                None => Vec::new(),
            };
            assert(binds_view(routes@) =~= port_routes(tv, g.listen_port));
            let l = Listener {
                listen_ip: g.listen_ip.clone(),
                port: g.listen_port,
                buffer_size: g.buffer_size,
                server: g.bind_server_name[0].1.duplicate(),
                server_map: routes,
            };
            let ghost before = out@;
            out.push(l);
            assert(listeners_view(out@) =~= listeners_view(before).push(l@));
        }
        i += 1;
    }
    assert(gs.take(gs.len() as int) =~= gs);
    out
}

/// Where the first entry for `port` from `i` on stands, and that there is
/// none before it.
pub proof fn lemma_port_pos(t: Seq<(usize, Seq<(Seq<char>, ServerView)>)>, port: usize, i: int)
    requires
        0 <= i <= t.len(),
    ensures
        match port_pos_from(t, port, i) {
            Some(p) => i <= p < t.len() && t[p].0 == port && forall|q: int| i <= q < p ==> #[trigger] t[q].0 != port,
            None => forall|q: int| i <= q < t.len() ==> #[trigger] t[q].0 != port,
        },
    decreases t.len() - i,
{
    if i < t.len() && t[i].0 != port {
        lemma_port_pos(t, port, i + 1);
    }
}

/// Where the first entry for `key` from `i` on stands, and that there is
/// none before it.
pub proof fn lemma_host_pos(m: Seq<(Seq<char>, ServerView)>, key: Seq<char>, i: int)
    requires
        0 <= i <= m.len(),
    ensures
        match host_pos_from(m, key, i) {
            Some(h) => i <= h < m.len() && m[h].0 == key && forall|q: int| i <= q < h ==> #[trigger] m[q].0 != key,
            None => forall|q: int| i <= q < m.len() ==> #[trigger] m[q].0 != key,
        },
    decreases m.len() - i,
{
    if i < m.len() && m[i].0 != key {
        lemma_host_pos(m, key, i + 1);
    }
}

/// The host table of `port` in `t` has an entry for `key`.
pub open spec fn routes_host(t: Seq<(usize, Seq<(Seq<char>, ServerView)>)>, port: usize, key: Seq<char>) -> bool {
    host_pos_from(port_routes(t, port), key, 0) is Some
}

/// Adding a binding keeps every host name that a port table routes, and
/// routes the added one.
proof fn lemma_add_binding_routes(
    t: Seq<(usize, Seq<(Seq<char>, ServerView)>)>,
    b: (usize, Seq<char>, ServerView),
    port: usize,
    key: Seq<char>,
)
    ensures
        routes_host(add_binding(t, b), b.0, b.1),
        routes_host(t, port, key) ==> routes_host(add_binding(t, b), port, key),
{
    let t2 = add_binding(t, b);
    lemma_port_pos(t, b.0, 0);
    lemma_port_pos(t, port, 0);
    lemma_port_pos(t2, b.0, 0);
    lemma_port_pos(t2, port, 0);
    match port_pos_from(t, b.0, 0) {
        Some(p) => {
            lemma_host_pos(t[p].1, b.1, 0);
            if host_pos_from(t[p].1, b.1, 0) is Some {
                assert(t2 == t);
            } else {
                let m1 = t[p].1.push((b.1, b.2));
                let m2 = put_host(m1, host_with_port(b.1, b.0), b.2);
                lemma_put_host(m1, host_with_port(b.1, b.0), b.2);
                assert(t2 == t.update(p, (b.0, m2)));
                assert(t2[p].0 == b.0);
                assert(port_pos_from(t2, b.0, 0) == Some(p));
                assert(m2[t[p].1.len() as int].0 == b.1);
                lemma_host_at(m2, b.1, t[p].1.len() as int);
                if routes_host(t, port, key) {
                    let pp = port_pos_from(t, port, 0)->0;
                    assert(t2[pp].0 == port);
                    assert(port_pos_from(t2, port, 0) == Some(pp));
                    lemma_host_pos(t[pp].1, key, 0);
                    let h = host_pos_from(t[pp].1, key, 0)->0;
                    if pp == p {
                        assert(m2[h].0 == m1[h].0);
                        lemma_host_at(m2, key, h);
                    } else {
                        assert(t2[pp] == t[pp]);
                    }
                }
            }
        },
        None => {
            let m2 = seq![(b.1, b.2), (host_with_port(b.1, b.0), b.2)];
            assert(t2 == t.push((b.0, m2)));
            assert(t2[t.len() as int].0 == b.0);
            assert(port_pos_from(t2, b.0, 0) == Some(t.len() as int));
            lemma_host_pos(m2, b.1, 0);
            assert(m2[0].0 == b.1);
            if routes_host(t, port, key) {
                let pp = port_pos_from(t, port, 0)->0;
                assert(t2[pp] == t[pp]);
                assert(port_pos_from(t2, port, 0) == Some(pp));
            }
        },
    }
}

/// A port table routes every host name of the bindings it was built from,
/// on the binding's port.
proof fn lemma_port_table_routes(bs: Seq<(usize, Seq<char>, ServerView)>)
    ensures
        forall|k: int| 0 <= k < bs.len() ==> routes_host(port_table(bs), #[trigger] bs[k].0, bs[k].1),
    decreases bs.len(),
{
    if bs.len() > 0 {
        let prev = bs.drop_last();
        lemma_port_table_routes(prev);
        assert forall|k: int| 0 <= k < bs.len() implies routes_host(port_table(bs), #[trigger] bs[k].0, bs[k].1) by {
            lemma_add_binding_routes(port_table(prev), bs.last(), bs[k].0, bs[k].1);
            if k < bs.len() - 1 {
                assert(prev[k] == bs[k]);
            }
        }
    }
}

/// Each binding of a configuration belongs to a group that binds a host
/// name on the binding's port.
proof fn lemma_binding_group(gs: Seq<ServerNameBind>)
    ensures
        forall|k: int| 0 <= k < all_bindings(gs).len() ==> exists|j: int|
            0 <= j < gs.len() && gs[j].bind_server_name@.len() > 0
                && #[trigger] all_bindings(gs)[k].0 == gs[j].listen_port,
    decreases gs.len(),
{
    if gs.len() > 0 {
        let prev = gs.drop_last();
        lemma_binding_group(prev);
        let a = all_bindings(prev);
        let gb = group_bindings(gs.last());
        assert forall|k: int| 0 <= k < all_bindings(gs).len() implies exists|j: int|
            0 <= j < gs.len() && gs[j].bind_server_name@.len() > 0
                && #[trigger] all_bindings(gs)[k].0 == gs[j].listen_port by {
            if k < a.len() {
                assert(all_bindings(gs)[k] == a[k]);
                let j = choose|j: int| 0 <= j < prev.len() && prev[j].bind_server_name@.len() > 0
                    && #[trigger] a[k].0 == prev[j].listen_port;
                assert(gs[j] == prev[j]);
            } else {
                assert(all_bindings(gs)[k] == gb[k - a.len()]);
                assert(gs[gs.len() - 1] == gs.last());
            }
        }
    }
}

/// What a plan holds: no two listeners share a port, each listener carries
/// the host table of its port, and every group that binds a host name has a
/// listener on its port.
proof fn lemma_plan_from(gs: Seq<ServerNameBind>, t: Seq<(usize, Seq<(Seq<char>, ServerView)>)>)
    ensures
        forall|k1: int, k2: int| 0 <= k1 < k2 < plan_from(gs, t).len()
            ==> #[trigger] plan_from(gs, t)[k1].port != #[trigger] plan_from(gs, t)[k2].port,
        forall|k: int| 0 <= k < plan_from(gs, t).len()
            ==> #[trigger] plan_from(gs, t)[k].server_map == port_routes(t, plan_from(gs, t)[k].port),
        forall|j: int| 0 <= j < gs.len() && gs[j].bind_server_name@.len() > 0
            ==> port_listened(plan_from(gs, t), #[trigger] gs[j].listen_port),
    decreases gs.len(),
{
    if gs.len() > 0 {
        let prev_gs = gs.drop_last();
        lemma_plan_from(prev_gs, t);
        let prev = plan_from(prev_gs, t);
        let cur = plan_from(gs, t);
        assert forall|j: int| 0 <= j < gs.len() && gs[j].bind_server_name@.len() > 0
            implies port_listened(cur, #[trigger] gs[j].listen_port) by {
            if j < gs.len() - 1 {
                assert(gs[j] == prev_gs[j]);
                assert(port_listened(prev, prev_gs[j].listen_port));
                let k = choose|k: int| 0 <= k < prev.len() && #[trigger] prev[k].port == prev_gs[j].listen_port;
                assert(cur[k] == prev[k]);
            } else {
                if port_listened(prev, gs.last().listen_port) {
                    let k = choose|k: int| 0 <= k < prev.len() && #[trigger] prev[k].port == gs.last().listen_port;
                    assert(cur[k] == prev[k]);
                } else {
                    assert(cur[prev.len() as int].port == gs.last().listen_port);
                }
            }
        }
    }
}

/// At most one listener is opened on each port.
pub proof fn law_one_listener_per_port(gs: Seq<ServerNameBind>)
    ensures
        forall|k1: int, k2: int| 0 <= k1 < k2 < listener_plan(gs).len()
            ==> #[trigger] listener_plan(gs)[k1].port != #[trigger] listener_plan(gs)[k2].port,
{
    lemma_plan_from(gs, port_table(all_bindings(gs)));
}

/// Every configured host name is served: a listener is opened on the port
/// it is bound on, and that listener's host table has an entry for it.
pub proof fn law_bound_hosts_served(gs: Seq<ServerNameBind>)
    ensures
        forall|k: int| 0 <= k < all_bindings(gs).len() ==> exists|m: int|
            0 <= m < listener_plan(gs).len()
                && listener_plan(gs)[m].port == (#[trigger] all_bindings(gs)[k]).0
                && host_pos_from(listener_plan(gs)[m].server_map, all_bindings(gs)[k].1, 0) is Some,
{
    let bs = all_bindings(gs);
    let t = port_table(bs);
    let plan = listener_plan(gs);
    lemma_plan_from(gs, t);
    lemma_port_table_routes(bs);
    lemma_binding_group(gs);
    assert forall|k: int| 0 <= k < bs.len() implies exists|m: int|
        0 <= m < plan.len() && plan[m].port == (#[trigger] bs[k]).0
            && host_pos_from(plan[m].server_map, bs[k].1, 0) is Some by {
        let j = choose|j: int| 0 <= j < gs.len() && gs[j].bind_server_name@.len() > 0
            && #[trigger] bs[k].0 == gs[j].listen_port;
        assert(port_listened(plan, gs[j].listen_port));
        let m = choose|m: int| 0 <= m < plan.len() && #[trigger] plan[m].port == gs[j].listen_port;
        assert(plan[m].server_map == port_routes(t, plan[m].port));
        assert(routes_host(t, bs[k].0, bs[k].1));
    }
}

/// An entry at a known position means `host_pos_from` finds one.
proof fn lemma_host_at(m: Seq<(Seq<char>, ServerView)>, key: Seq<char>, i: int)
    requires
        0 <= i < m.len(),
        m[i].0 == key,
    ensures
        host_pos_from(m, key, 0) is Some,
{
    lemma_host_pos(m, key, 0);
}

/// What setting a key in a host table does: the key is there afterwards,
/// and every earlier entry keeps its name at its position.
proof fn lemma_put_host(m: Seq<(Seq<char>, ServerView)>, key: Seq<char>, sv: ServerView)
    ensures
        host_pos_from(put_host(m, key, sv), key, 0) is Some,
        m.len() <= put_host(m, key, sv).len() <= m.len() + 1,
        forall|i: int| 0 <= i < m.len() ==> #[trigger] put_host(m, key, sv)[i].0 == m[i].0,
        forall|i: int| m.len() <= i < put_host(m, key, sv).len() ==> #[trigger] put_host(m, key, sv)[i].0 == key,
{
    lemma_host_pos(m, key, 0);
    let r = put_host(m, key, sv);
    match host_pos_from(m, key, 0) {
        Some(h) => {
            assert(r[h].0 == key);
            lemma_host_at(r, key, h);
        },
        None => {
            assert(r[m.len() as int].0 == key);
            lemma_host_at(r, key, m.len() as int);
        },
    }
}

/// The text holds a `:`.
pub open spec fn has_colon(s: Seq<char>) -> bool {
    exists|i: int| 0 <= i < s.len() && s[i] == ':'
}

/// Every host name without a `:` in a port table also has its entry with
/// the port appended.
pub open spec fn aliases_present(t: Seq<(usize, Seq<(Seq<char>, ServerView)>)>) -> bool {
    forall|q: int, h: int|
        #![trigger t[q].1[h]]
        0 <= q < t.len() && 0 <= h < t[q].1.len() && !has_colon(t[q].1[h].0)
            ==> host_pos_from(t[q].1, host_with_port(t[q].1[h].0, t[q].0), 0) is Some
}

/// A host name with the port appended holds a `:`.
proof fn lemma_alias_colon(key: Seq<char>, port: usize)
    ensures
        has_colon(host_with_port(key, port)),
{
    assert(host_with_port(key, port)[key.len() as int] == ':');
}

/// Adding a binding whose name holds no `:` keeps every name's entry with
/// the port.
proof fn lemma_add_binding_aliases(t: Seq<(usize, Seq<(Seq<char>, ServerView)>)>, b: (usize, Seq<char>, ServerView))
    requires
        aliases_present(t),
        !has_colon(b.1),
    ensures
        aliases_present(add_binding(t, b)),
{
    let t2 = add_binding(t, b);
    let alias = host_with_port(b.1, b.0);
    lemma_alias_colon(b.1, b.0);
    lemma_port_pos(t, b.0, 0);
    match port_pos_from(t, b.0, 0) {
        Some(p) => {
            if host_pos_from(t[p].1, b.1, 0) is None {
                let m = t[p].1;
                let m1 = m.push((b.1, b.2));
                let m2 = put_host(m1, alias, b.2);
                lemma_put_host(m1, alias, b.2);
                assert(t2 == t.update(p, (b.0, m2)));
                assert forall|q: int, h: int|
                    #![trigger t2[q].1[h]]
                    0 <= q < t2.len() && 0 <= h < t2[q].1.len() && !has_colon(t2[q].1[h].0)
                        implies host_pos_from(t2[q].1, host_with_port(t2[q].1[h].0, t2[q].0), 0) is Some by {
                    if q == p {
                        let k = m2[h].0;
                        if h < m.len() {
                            assert(k == m[h].0);
                            assert(t[p].1[h] == m[h]);
                            lemma_host_pos(m, host_with_port(k, b.0), 0);
                            let a = host_pos_from(m, host_with_port(k, b.0), 0)->0;
                            assert(m2[a].0 == m1[a].0);
                            lemma_host_at(m2, host_with_port(k, b.0), a);
                        } else if h == m.len() {
                            assert(k == b.1);
                        } else {
                            assert(k == alias);
                        }
                    } else {
                        assert(t2[q] == t[q]);
                        assert(t[q].1[h] == t2[q].1[h]);
                    }
                }
            }
        },
        None => {
            let m2 = seq![(b.1, b.2), (alias, b.2)];
            assert(t2 == t.push((b.0, m2)));
            assert forall|q: int, h: int|
                #![trigger t2[q].1[h]]
                0 <= q < t2.len() && 0 <= h < t2[q].1.len() && !has_colon(t2[q].1[h].0)
                    implies host_pos_from(t2[q].1, host_with_port(t2[q].1[h].0, t2[q].0), 0) is Some by {
                if q < t.len() {
                    assert(t2[q] == t[q]);
                    assert(t[q].1[h] == t2[q].1[h]);
                } else {
                    assert(m2[1].0 == alias);
                    lemma_host_at(m2, alias, 1);
                }
            }
        },
    }
}

/// A port table built from bindings whose names hold no `:` has, for every
/// name, its entry with the port appended.
proof fn lemma_port_table_aliases(bs: Seq<(usize, Seq<char>, ServerView)>)
    requires
        forall|k: int| 0 <= k < bs.len() ==> !has_colon(#[trigger] bs[k].1),
    ensures
        aliases_present(port_table(bs)),
    decreases bs.len(),
{
    if bs.len() > 0 {
        let prev = bs.drop_last();
        assert forall|k: int| 0 <= k < prev.len() implies !has_colon(#[trigger] prev[k].1) by {
            assert(prev[k] == bs[k]);
        }
        lemma_port_table_aliases(prev);
        assert(!has_colon(bs[bs.len() - 1].1));
        lemma_add_binding_aliases(port_table(prev), bs.last());
    }
}

/// Every configured host name (one without a `:`) is also answered with
/// its port appended, `name:port`, by the listener on that port.
pub proof fn law_bound_hosts_served_with_port(gs: Seq<ServerNameBind>)
    requires
        forall|k: int| 0 <= k < all_bindings(gs).len() ==> !has_colon(#[trigger] all_bindings(gs)[k].1),
    ensures
        forall|k: int| 0 <= k < all_bindings(gs).len() ==> exists|m: int|
            0 <= m < listener_plan(gs).len()
                && listener_plan(gs)[m].port == (#[trigger] all_bindings(gs)[k]).0
                && host_pos_from(
                    listener_plan(gs)[m].server_map,
                    host_with_port(all_bindings(gs)[k].1, all_bindings(gs)[k].0),
                    0,
                ) is Some,
{
    let bs = all_bindings(gs);
    let t = port_table(bs);
    let plan = listener_plan(gs);
    lemma_plan_from(gs, t);
    lemma_port_table_routes(bs);
    lemma_port_table_aliases(bs);
    lemma_binding_group(gs);
    assert forall|k: int| 0 <= k < bs.len() implies exists|m: int|
        0 <= m < plan.len() && plan[m].port == (#[trigger] bs[k]).0
            && host_pos_from(plan[m].server_map, host_with_port(bs[k].1, bs[k].0), 0) is Some by {
        let j = choose|j: int| 0 <= j < gs.len() && gs[j].bind_server_name@.len() > 0
            && #[trigger] bs[k].0 == gs[j].listen_port;
        assert(port_listened(plan, gs[j].listen_port));
        let m = choose|m: int| 0 <= m < plan.len() && #[trigger] plan[m].port == gs[j].listen_port;
        assert(plan[m].server_map == port_routes(t, plan[m].port));
        assert(routes_host(t, bs[k].0, bs[k].1));
        let p = port_pos_from(t, bs[k].0, 0)->0;
        lemma_port_pos(t, bs[k].0, 0);
        lemma_host_pos(t[p].1, bs[k].1, 0);
        let h = host_pos_from(t[p].1, bs[k].1, 0)->0;
        assert(t[p].1[h].0 == bs[k].1);
        assert(!has_colon(bs[k].1));
        assert(t[p].0 == bs[k].0);
    }
}

} // verus!
