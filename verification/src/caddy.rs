//! Routes in Caddy, driven through its admin API (HTTP+JSON on
//! localhost:2019). Charm does two things to Caddy: put a route on the server
//! that owns `:443` (creating one if none does), and remove it. Certificates
//! are Caddy's job. This module decides the requests; sending them is left to
//! the caller.
use vstd::prelude::*;
use crate::text::{
    chars_of, decimal, decimal_string, ends_with, ends_with_chars, eq_chars, string_views,
};
use crate::util::own;

verus! {

pub const ADMIN: &'static str = "http://127.0.0.1:2019";

/// The server Charm creates when nothing listens on `:443` yet.
pub const FALLBACK_SERVER: &'static str = "charm";

/// The route Charm puts in front of an app.
#[derive(Clone)]
pub struct Route {
    /// The route's `@id`, by which it is found and deleted again.
    pub id: String,
    /// The host the route matches.
    pub host: String,
    /// The upstream it proxies to, `ip:port`.
    pub dial: String,
}

pub open spec fn spec_route_id(app: Seq<char>) -> Seq<char> {
    "charm_"@ + app
}

pub fn route_id(app: &str) -> (r: String)
    ensures
        r@ == spec_route_id(app@),
{
    let mut s = own("charm_");
    s.append(app);
    s
}

/// The route for `app`, matching `host` and proxying to `ip:port`.
pub fn route(app: &str, host: &str, ip: &str, port: u16) -> (r: Route)
    ensures
        r.id@ == spec_route_id(app@),
        r.host@ == host@,
        r.dial@ == ip@ + ":"@ + decimal(port as nat),
{
    let mut dial = own(ip);
    dial.append(":");
    let p = decimal_string(port as u64);
    dial.append(p.as_str());
    Route { id: route_id(app), host: own(host), dial }
}

/// URL of an app's route by id (GET to test it, DELETE to remove it).
pub fn id_url(app: &str) -> (r: String)
    ensures
        r@ == ADMIN@ + "/id/"@ + spec_route_id(app@),
{
    let mut s = own(ADMIN);
    s.append("/id/");
    let id = route_id(app);
    s.append(id.as_str());
    s
}

/// URL of the HTTP servers in Caddy's config.
pub fn servers_url() -> (r: String)
    ensures
        r@ == ADMIN@ + "/config/apps/http/servers"@,
{
    let mut s = own(ADMIN);
    s.append("/config/apps/http/servers");
    s
}

/// URL of one HTTP server (PUT to create it).
pub fn server_url(server: &str) -> (r: String)
    ensures
        r@ == ADMIN@ + "/config/apps/http/servers"@ + "/"@ + server@,
{
    let mut s = servers_url();
    s.append("/");
    s.append(server);
    s
}

/// URL at which a new route becomes a server's first route.
pub fn first_route_url(server: &str) -> (r: String)
    ensures
        r@ == ADMIN@ + "/config/apps/http/servers"@ + "/"@ + server@ + "/routes/0"@,
{
    let mut s = server_url(server);
    s.append("/routes/0");
    s
}

/// A listen address is on port 443.
pub open spec fn is_443(a: Seq<char>) -> bool {
    ends_with(a, ":443"@) || a == "443"@
}

pub open spec fn any_443(listen: Seq<Seq<char>>) -> bool {
    exists|i: int| 0 <= i < listen.len() && is_443(#[trigger] listen[i])
}

/// Whether a server's `listen` addresses include port 443.
pub fn listens_on_443(listen: &Vec<String>) -> (r: bool)
    ensures
        r == any_443(string_views(listen@)),
{
    let suffix = chars_of(":443");
    let bare = chars_of("443");
    let mut i: usize = 0;
    while i < listen.len()
        invariant
            i <= listen.len(),
            suffix@ == ":443"@,
            bare@ == "443"@,
            forall|j: int| 0 <= j < i ==> !is_443(#[trigger] string_views(listen@)[j]),
        decreases listen.len() - i,
    {
        let a = chars_of(listen[i].as_str());
        assert(string_views(listen@)[i as int] == a@);
        if ends_with_chars(&a, &suffix) || eq_chars(&a, &bare) {
            return true;
        }
        i = i + 1;
    }
    false
}

/// A server (name and `listen` list, if it has one) listens on 443.
pub open spec fn serves_443(server: (String, Option<Vec<String>>)) -> bool {
    match server.1 {
        Some(l) => any_443(string_views(l@)),
        None => false,
    }
}

/// The position of the first server (in the order given) that listens on 443.
pub open spec fn first_443(servers: Seq<(String, Option<Vec<String>>)>) -> Option<int> {
    if exists|i: int| 0 <= i < servers.len() && serves_443(#[trigger] servers[i]) {
        Some(
            choose|i: int|
                0 <= i < servers.len() && serves_443(#[trigger] servers[i]) && forall|j: int|
                    0 <= j < i ==> !serves_443(servers[j]),
        )
    } else {
        None
    }
}

/// The server that owns `:443`: on a shared box the operator's existing HTTPS
/// server, the first one in the order given.
pub fn https_server(servers: &Vec<(String, Option<Vec<String>>)>) -> (r: Option<String>)
    ensures
        match r {
            Some(name) => exists|i: int|
                0 <= i < servers@.len() && first_443(servers@) == Some(i) && name@
                    == servers@[i].0@,
            None => first_443(servers@) is None,
        },
{
    let mut i: usize = 0;
    while i < servers.len()
        invariant
            i <= servers.len(),
            forall|j: int| 0 <= j < i ==> !serves_443(#[trigger] servers@[j]),
        decreases servers.len() - i,
    {
        let hit = match &servers[i].1 {
            Some(l) => listens_on_443(l),
            None => false,
        };
        if hit {
            let ghost s = servers@;
            proof {
                assert(serves_443(s[i as int]));
                let w = choose|k: int|
                    0 <= k < s.len() && serves_443(#[trigger] s[k]) && forall|j: int|
                        0 <= j < k ==> !serves_443(s[j]);
                assert(0 <= i < s.len() && serves_443(s[i as int]) && forall|j: int|
                    0 <= j < i ==> !serves_443(s[j]));
                if w < i {
                    assert(!serves_443(s[w]));
                }
                if w > i {
                    assert(!serves_443(s[i as int]));
                }
            }
            return Some(own(servers[i].0.as_str()));
        }
        i = i + 1;
    }
    None
}

/// What publishing a route does: on which server it goes (created first
/// when no server listens on 443), and the route itself. Any previous route
/// of the app is deleted first, by id.
pub struct Publish {
    pub server: String,
    pub create_server: bool,
    pub route: Route,
}

/// Where `route` goes, given Caddy's servers with their `listen` lists: the
/// first server listening on 443, else a new fallback server.
pub fn place(route: Route, servers: &Vec<(String, Option<Vec<String>>)>) -> (r: Publish)
    ensures
        r.route == route,
        match first_443(servers@) {
            Some(i) => !r.create_server && r.server@ == servers@[i].0@,
            None => r.create_server && r.server@ == FALLBACK_SERVER@,
        },
{
    match https_server(servers) {
        Some(server) => Publish { server, create_server: false, route },
        None => Publish { server: own(FALLBACK_SERVER), create_server: true, route },
    }
}

/// Publish `app` at `host`, proxying to `ip:port`, given Caddy's servers
/// with their `listen` lists.
pub fn publish(
    app: &str,
    host: &str,
    ip: &str,
    port: u16,
    servers: &Vec<(String, Option<Vec<String>>)>,
) -> (r: Publish)
    ensures
        r.route.id@ == spec_route_id(app@),
        r.route.host@ == host@,
        r.route.dial@ == ip@ + ":"@ + decimal(port as nat),
        match first_443(servers@) {
            Some(i) => !r.create_server && r.server@ == servers@[i].0@,
            None => r.create_server && r.server@ == FALLBACK_SERVER@,
        },
{
    place(route(app, host, ip, port), servers)
}

/// A request to Caddy's admin API that publishing sends, in order.
pub enum Request {
    /// PUT a new HTTPS server at `url`: listening on `:443`, with no routes.
    CreateServer { server: String, url: String },
    /// DELETE the object whose `@id` is `id`, at `url` (best effort: there
    /// may be none).
    DeleteRoute { id: String, url: String },
    /// PUT `route` at `url`, which inserts it first among `server`'s routes.
    InsertRoute { server: String, url: String, route: Route },
}

/// A route as Caddy holds it: its id, host and upstream.
pub open spec fn route_view(r: Route) -> (Seq<char>, Seq<char>, Seq<char>) {
    (r.id@, r.host@, r.dial@)
}

/// A copy of a route.
pub fn copy_route(r: &Route) -> (c: Route)
    ensures
        route_view(c) == route_view(*r),
{
    Route { id: own(r.id.as_str()), host: own(r.host.as_str()), dial: own(r.dial.as_str()) }
}

/// The requests that carry out `plan`: create the server when the plan says
/// so, delete any earlier route with the route's id, then insert the route
/// first on the server.
pub open spec fn publish_requests_of(plan: Publish, reqs: Seq<Request>) -> bool {
    let o: int = if plan.create_server { 1 } else { 0 };
    &&& reqs.len() == o + 2
    &&& plan.create_server ==> (reqs[0] matches Request::CreateServer { server, url } && server@
        == plan.server@ && url@ == ADMIN@ + "/config/apps/http/servers"@ + "/"@ + plan.server@)
    &&& reqs[o] matches Request::DeleteRoute { id, url } && id@ == plan.route.id@ && url@ == ADMIN@
        + "/id/"@ + plan.route.id@
    &&& reqs[o + 1] matches Request::InsertRoute { server, url, route } && server@ == plan.server@
        && url@ == ADMIN@ + "/config/apps/http/servers"@ + "/"@ + plan.server@ + "/routes/0"@
        && route_view(route) == route_view(plan.route)
}

/// The requests that publish according to `plan`, in the order to send them.
pub fn publish_requests(plan: Publish) -> (r: Vec<Request>)
    ensures
        publish_requests_of(plan, r@),
{
    let ghost p = plan;
    let mut r: Vec<Request> = Vec::new();
    if plan.create_server {
        r.push(Request::CreateServer { server: own(plan.server.as_str()), url: server_url(plan.server.as_str()) });
    }
    let mut url = own(ADMIN);
    url.append("/id/");
    url.append(plan.route.id.as_str());
    r.push(Request::DeleteRoute { id: own(plan.route.id.as_str()), url });
    let insert_url = first_route_url(plan.server.as_str());
    let server = plan.server;
    r.push(Request::InsertRoute { server, url: insert_url, route: plan.route });
    r
}

/// Caddy's routes as Charm sees them: for each server by name, its routes in
/// order, each as (id, host, upstream).
pub open spec fn apply(
    cfg: Map<Seq<char>, Seq<(Seq<char>, Seq<char>, Seq<char>)>>,
    req: Request,
) -> Map<Seq<char>, Seq<(Seq<char>, Seq<char>, Seq<char>)>> {
    match req {
        Request::CreateServer { server, .. } => cfg.insert(server@, Seq::empty()),
        Request::DeleteRoute { id, .. } => Map::new(
            |s: Seq<char>| cfg.dom().contains(s),
            |s: Seq<char>| cfg[s].filter(|x: (Seq<char>, Seq<char>, Seq<char>)| x.0 != id@),
        ),
        Request::InsertRoute { server, route, .. } => cfg.insert(
            server@,
            seq![route_view(route)] + if cfg.dom().contains(server@) {
                cfg[server@]
            } else {
                Seq::empty()
            },
        ),
    }
}

/// Caddy's routes after the requests, sent in order.
pub open spec fn apply_all(
    cfg: Map<Seq<char>, Seq<(Seq<char>, Seq<char>, Seq<char>)>>,
    reqs: Seq<Request>,
) -> Map<Seq<char>, Seq<(Seq<char>, Seq<char>, Seq<char>)>>
    decreases reqs.len(),
{
    if reqs.len() == 0 {
        cfg
    } else {
        apply_all(apply(cfg, reqs[0]), reqs.skip(1))
    }
}

/// Publishing leaves Caddy with exactly one route of the app's id, whatever
/// routes it held before (an earlier publish of the same app among them):
/// the published route, first on its server.
pub proof fn law_publish_leaves_one_route(
    cfg: Map<Seq<char>, Seq<(Seq<char>, Seq<char>, Seq<char>)>>,
    plan: Publish,
    reqs: Seq<Request>,
)
    requires
        publish_requests_of(plan, reqs),
    ensures
        apply_all(cfg, reqs).dom().contains(plan.server@),
        apply_all(cfg, reqs)[plan.server@].len() > 0,
        apply_all(cfg, reqs)[plan.server@][0] == route_view(plan.route),
        forall|s: Seq<char>, i: int|
            apply_all(cfg, reqs).dom().contains(s) && 0 <= i < apply_all(cfg, reqs)[s].len()
                && (#[trigger] apply_all(cfg, reqs)[s][i]).0 == plan.route.id@ ==> s == plan.server@
                && i == 0,
{
    let o: int = if plan.create_server { 1 } else { 0 };
    let c0 = if plan.create_server { apply(cfg, reqs[0]) } else { cfg };
    let c1 = apply(c0, reqs[o]);
    let c2 = apply(c1, reqs[o + 1]);
    assert(apply_all(c2, reqs.skip(o + 2)) == c2) by {
        assert(reqs.skip(o + 2).len() == 0);
    }
    assert(apply_all(c1, reqs.skip(o + 1)) == c2) by {
        assert(reqs.skip(o + 1)[0] == reqs[o + 1]);
        assert(reqs.skip(o + 1).skip(1) =~= reqs.skip(o + 2));
    }
    assert(apply_all(c0, reqs.skip(o)) == c2) by {
        assert(reqs.skip(o)[0] == reqs[o]);
        assert(reqs.skip(o).skip(1) =~= reqs.skip(o + 1));
    }
    if plan.create_server {
        assert(apply_all(cfg, reqs) == c2) by {
            assert(reqs.skip(1) =~= reqs.skip(o));
        }
    } else {
        assert(reqs.skip(0) =~= reqs);
    }
    let id = plan.route.id@;
    assert forall|s: Seq<char>, i: int|
        c1.dom().contains(s) && 0 <= i < c1[s].len() implies (#[trigger] c1[s][i]).0 != id by {
        let rid = reqs[o]->DeleteRoute_id;
        let pred = |x: (Seq<char>, Seq<char>, Seq<char>)| x.0 != rid@;
        assert(c1 == Map::new(|t: Seq<char>| c0.dom().contains(t), |t: Seq<char>| c0[t].filter(pred)));
        assert(c0.dom().contains(s));
        assert(c1[s] == c0[s].filter(pred));
        c0[s].lemma_filter_pred(pred, i);
    }
    assert forall|s: Seq<char>, i: int|
        c2.dom().contains(s) && 0 <= i < c2[s].len() && (#[trigger] c2[s][i]).0 == id implies s
        == plan.server@ && i == 0 by {
        if s != plan.server@ {
            assert(c2[s] == c1[s]);
            assert(c1[s][i].0 != id);
        } else if i > 0 {
            assert(c1.dom().contains(s));
            assert(c2[s][i] == c1[s][i - 1]);
            assert(c1[s][i - 1].0 != id);
        }
    }
}

} // verus!
