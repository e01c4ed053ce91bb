use vstd::prelude::*;
use crate::cgi::Cgi;
use crate::config::{first_named, Config, Directive, Server};
use crate::error::ServerError;
use crate::path::{
    begins, below, depth, file_name, is_absolute, is_absolute_path, join_from, joined, lies_under,
    push_path, pushed, relative, same_path, same_segments, segments, segments_of,
};
use crate::request::{copy_bytes, Request};
use crate::response::Response;

verus! {

/// What is to be done with a request.
#[derive(Debug)]
pub enum Route {
    /// Answer with this response.
    Respond(Response),
    /// Resolve this rewritten request instead.
    Rewrite(Request),
    /// Serve what the file system holds at `target` for request path `path`.
    Serve { path: String, target: String },
    /// Run this CGI program and answer with what it prints.
    RunCgi(Cgi),
    /// The path is to be run through this interpreter, which is not supported.
    Interpreter(String),
}

/// The rule `(dir, d)` decides the request for `path`: `path` lies under
/// `dir`, and `d` is neither a permission nor a redirect for a path other
/// than `dir` itself, both of which leave the decision to other rules.
pub open spec fn applies(dir: Seq<char>, d: Directive, path: Seq<char>) -> bool {
    &&& lies_under(dir, path)
    &&& match d {
        Directive::Allow(allowed) => !allowed,
        Directive::Redirect(_) => same_path(dir, path),
        _ => true,
    }
}

pub open spec fn rule_applies(rules: Seq<(String, Directive)>, i: int, path: Seq<char>) -> bool {
    applies(rules[i].0@, rules[i].1, path)
}

/// Rule `i` is the one that decides `path`: it applies, and every rule that
/// applies has a shorter directory, or one as long and stands later.
pub open spec fn selected(rules: Seq<(String, Directive)>, path: Seq<char>, i: int) -> bool {
    &&& 0 <= i < rules.len()
    &&& rule_applies(rules, i, path)
    &&& forall|j: int|
        0 <= j < rules.len() && #[trigger] rule_applies(rules, j, path) ==> depth(rules[j].0@)
            < depth(rules[i].0@) || (depth(rules[j].0@) == depth(rules[i].0@) && i <= j)
}

/// `q` is `request` with its path replaced by `path`.
pub open spec fn rewritten(q: Request, request: &Request, path: Seq<char>) -> bool {
    &&& q.path@ == path
    &&& q.host@ == request.host@
    &&& q.query.deep_view() == request.query.deep_view()
    &&& q.client_ip@ == request.client_ip@
    &&& q.length == request.length
    &&& q.content.deep_view() == request.content.deep_view()
}

/// What the deciding rule `(dir, d)` makes of the request.
pub open spec fn rule_route(
    server: &Server,
    request: &Request,
    dir: Seq<char>,
    d: Directive,
    port: Seq<char>,
    r: Route,
) -> bool {
    match d {
        Directive::Allow(_) => r matches Route::Respond(Response::ServerError(e))
            && e is Unauthorized,
        Directive::Alias(target) => r matches Route::Rewrite(q) && rewritten(
            q,
            request,
            pushed(target@, joined(below(dir, request.path@))),
        ),
        Directive::Redirect(target) => r matches Route::Respond(Response::Redirect(p)) && p@
            == target@,
        Directive::Interpreter(name) => r matches Route::Interpreter(n) && n@ == name@,
        Directive::Cgi => if Cgi::names_program(request, dir) {
            r matches Route::RunCgi(c) && c.describes(request, server, port) && c.spec_for_dir(
                request,
                server,
                dir,
            )
        } else {
            r matches Route::Respond(Response::ServerError(e)) && e is CgiError
        },
        Directive::ScriptAlias(script) => if file_name(script@) is Some {
            r matches Route::RunCgi(c) && c.describes(request, server, port)
                && c.spec_for_script(server, script@)
        } else {
            r matches Route::Respond(Response::ServerError(e)) && e is CgiError
        },
    }
}

/// The static fall-back: the path, relative to the document root, names
/// what is served; a relative request path cannot be placed there.
pub open spec fn static_route(server: &Server, request: &Request, r: Route) -> bool {
    if is_absolute(request.path@) {
        r matches Route::Serve { path, target } && path@ == request.path@ && target@ == pushed(
            server.root@,
            relative(request.path@),
        )
    } else {
        r matches Route::Respond(Response::ServerError(ServerError::IoError(m))) && m@
            == "prefix not found"@
    }
}

impl Server {
    /// What this host makes of `request`: the deciding rule's route, or the
    /// static fall-back where no rule decides.
    pub open spec fn spec_route(&self, request: &Request, port: Seq<char>, r: Route) -> bool {
        let rules = self.directories@;
        if exists|i: int| selected(rules, request.path@, i) {
            forall|i: int|
                selected(rules, request.path@, i) ==> rule_route(
                    self,
                    request,
                    rules[i].0@,
                    rules[i].1,
                    port,
                    r,
                )
        } else {
            static_route(self, request, r)
        }
    }

    /// The rule that decides `path`, if any.
    pub fn select(&self, path: &str) -> (r: Option<usize>)
        ensures
            r matches Some(i) ==> selected(self.directories@, path@, i as int),
            r is None ==> forall|i: int|
                0 <= i < self.directories@.len() ==> !rule_applies(self.directories@, i, path@),
    {
        let rules = &self.directories;
        let path_abs = is_absolute_path(path);
        let path_segs = segments_of(path);
        let mut best: Option<usize> = None;
        let mut best_depth: usize = 0;
        let mut i: usize = 0;
        while i < rules.len()
            invariant
                i <= rules@.len(),
                rules == &self.directories,
                path_abs == is_absolute(path@),
                path_segs.deep_view() == segments(path@),
                best is None ==> forall|j: int| 0 <= j < i ==> !rule_applies(rules@, j, path@),
                best matches Some(b) ==> {
                    &&& b < i
                    &&& rule_applies(rules@, b as int, path@)
                    &&& best_depth == depth(rules@[b as int].0@)
                    &&& forall|j: int|
                        0 <= j < i && #[trigger] rule_applies(rules@, j, path@) ==> depth(
                            rules@[j].0@,
                        ) < best_depth || (depth(rules@[j].0@) == best_depth && b <= j)
                },
            decreases rules@.len() - i,
        {
            let (dir, d) = &rules[i];
            let dir_segs = segments_of(dir.as_str());
            let under = is_absolute_path(dir.as_str()) == path_abs && begins(&dir_segs, &path_segs);
            let decides = under && match d {
                Directive::Allow(allowed) => !*allowed,
                Directive::Redirect(_) => same_segments(&dir_segs, &path_segs),
                _ => true,
            };
            assert(decides == rule_applies(rules@, i as int, path@));
            if decides {
                match best {
                    None => {
                        best = Some(i);
                        best_depth = dir_segs.len();
                    },
                    Some(_) => {
                        if dir_segs.len() > best_depth {
                            best = Some(i);
                            best_depth = dir_segs.len();
                        }
                    },
                }
            }
            i = i + 1;
        }
        best
    }

    /// Decides what to do with `request` on this host; `port` is the port
    /// that CGI programs are told.
    pub fn route(&self, request: &Request, port: &str) -> (r: Route)
        ensures
            self.spec_route(request, port@, r),
    {
        let ghost rules = self.directories@;
        match self.select(request.path.as_str()) {
            Some(i) => {
                proof {
                    assert forall|k: int| selected(rules, request.path@, k) implies k == i by {
                        if k < i {
                            assert(rule_applies(rules, k, request.path@));
                        } else if k > i {
                            assert(rule_applies(rules, i as int, request.path@));
                        }
                    }
                }
                let (dir, d) = &self.directories[i];
                let r = self.apply(request, dir.as_str(), d, port);
                r
            },
            None => {
                assert(!exists|k: int| selected(rules, request.path@, k));
                self.serve_static(request)
            },
        }
    }

    fn apply(&self, request: &Request, dir: &str, d: &Directive, port: &str) -> (r: Route)
        requires
            applies(dir@, *d, request.path@),
        ensures
            rule_route(self, request, dir@, *d, port@, r),
    {
        match d {
            Directive::Allow(_) => Route::Respond(Response::ServerError(ServerError::Unauthorized)),
            Directive::Alias(target) => {
                let dir_segs = segments_of(dir);
                let path_segs = segments_of(request.path.as_str());
                let rest = join_from(&path_segs, dir_segs.len());
                let path = push_path(target.as_str(), rest.as_str());
                let content = match &request.content {
                    Some(c) => Some(copy_bytes(c.as_slice(), 0, c.len())),
                    None => None,
                };
                assert(content.deep_view() =~= request.content.deep_view());
                Route::Rewrite(
                    Request {
                        host: request.host.clone(),
                        path,
                        query: request.query.clone(),
                        client_ip: request.client_ip.clone(),
                        length: request.length,
                        content,
                    },
                )
            },
            Directive::Redirect(target) => Route::Respond(Response::Redirect(target.clone())),
            Directive::Interpreter(name) => Route::Interpreter(name.clone()),
            Directive::Cgi => match Cgi::new(request, self, dir, port) {
                Ok(c) => Route::RunCgi(c),
                Err(e) => Route::Respond(Response::ServerError(e)),
            },
            Directive::ScriptAlias(script) => match Cgi::from_script_alias(
                request,
                self,
                script.as_str(),
                port,
            ) {
                Ok(c) => Route::RunCgi(c),
                Err(e) => Route::Respond(Response::ServerError(e)),
            },
        }
    }

    fn serve_static(&self, request: &Request) -> (r: Route)
        ensures
            static_route(self, request, r),
    {
        if !is_absolute_path(request.path.as_str()) {
            proof {
                reveal_strlit("prefix not found");
            }
            return Route::Respond(
                Response::ServerError(ServerError::IoError(String::from_str("prefix not found"))),
            );
        }
        let segs = segments_of(request.path.as_str());
        let rel = join_from(&segs, 0);
        assert(segs.deep_view().skip(0) == segs.deep_view());
        let target = push_path(self.root.as_str(), rel.as_str());
        Route::Serve { path: request.path.clone(), target }
    }
}

impl Config {
    /// What the configuration makes of `request`: the first host of its
    /// name routes it, and an unknown host is not found.
    pub open spec fn spec_route(&self, request: &Request, r: Route) -> bool {
        if exists|h: int| first_named(self.vhosts@, request.host@, h) {
            forall|h: int|
                first_named(self.vhosts@, request.host@, h) ==> self.vhosts@[h].spec_route(
                    request,
                    self.address.port@,
                    r,
                )
        } else {
            r matches Route::Respond(Response::ServerError(e)) && e is NotFound
        }
    }

    /// Decides what to do with `request`.
    pub fn route(&self, request: &Request) -> (r: Route)
        ensures
            self.spec_route(request, r),
    {
        match self.find_host(&request.host) {
            Some(h) => {
                proof {
                    assert forall|k: int| first_named(self.vhosts@, request.host@, k) implies k
                        == h by {
                        if k < h {
                            assert(self.vhosts@[k].name@ != request.host@);
                        } else if k > h {
                            assert(self.vhosts@[h as int].name@ != request.host@);
                        }
                    }
                }
                self.vhosts[h].route(request, self.address.port.as_str())
            },
            None => Route::Respond(Response::ServerError(ServerError::NotFound)),
        }
    }
}


proof fn lemma_selected_exists_upto(rules: Seq<(String, Directive)>, path: Seq<char>, n: int) -> (b: int)
    requires
        0 <= n <= rules.len(),
        exists|j: int| 0 <= j < n && rule_applies(rules, j, path),
    ensures
        0 <= b < n,
        rule_applies(rules, b, path),
        forall|j: int|
            0 <= j < n && #[trigger] rule_applies(rules, j, path) ==> depth(rules[j].0@) < depth(
                rules[b].0@,
            ) || (depth(rules[j].0@) == depth(rules[b].0@) && b <= j),
    decreases n,
{
    if exists|j: int| 0 <= j < n - 1 && rule_applies(rules, j, path) {
        let b0 = lemma_selected_exists_upto(rules, path, n - 1);
        if rule_applies(rules, n - 1, path) && depth(rules[n - 1].0@) > depth(rules[b0].0@) {
            n - 1
        } else {
            b0
        }
    } else {
        n - 1
    }
}

/// Where some rule applies to a path, one of them decides it.
pub proof fn lemma_selected_exists(rules: Seq<(String, Directive)>, path: Seq<char>, k: int)
    requires
        0 <= k < rules.len(),
        rule_applies(rules, k, path),
    ensures
        exists|i: int| selected(rules, path, i),
{
    let b = lemma_selected_exists_upto(rules, path, rules.len() as int);
    assert(selected(rules, path, b));
}

proof fn lemma_full_depth_same(dir: Seq<char>, path: Seq<char>)
    requires
        lies_under(dir, path),
        depth(dir) == depth(path),
    ensures
        same_path(dir, path),
{
    assert(segments(path).take(segments(dir).len() as int) == segments(path));
}

/// A denied directory stays denied below: where a rule `Allow(false)` covers
/// the request path, and every rule that covers the path from as deep or
/// deeper is a permission rule (such as a nested `Allow(true)`), the host
/// answers `Unauthorized`.
pub proof fn lemma_denial_covers_subtree(
    server: &Server,
    request: &Request,
    port: Seq<char>,
    k: int,
    r: Route,
)
    requires
        0 <= k < server.directories@.len(),
        server.directories@[k].1 == Directive::Allow(false),
        lies_under(server.directories@[k].0@, request.path@),
        forall|j: int|
            0 <= j < server.directories@.len() && lies_under(
                #[trigger] server.directories@[j].0@,
                request.path@,
            ) && depth(server.directories@[j].0@) >= depth(server.directories@[k].0@)
                ==> server.directories@[j].1 is Allow,
        server.spec_route(request, port, r),
    ensures
        r matches Route::Respond(Response::ServerError(e)) && e is Unauthorized,
{
    let rules = server.directories@;
    assert(rule_applies(rules, k, request.path@));
    lemma_selected_exists(rules, request.path@, k);
    let i = choose|i: int| selected(rules, request.path@, i);
    assert(rule_route(server, request, rules[i].0@, rules[i].1, port, r));
    assert(rules[i].1 is Allow);
}

/// A redirect applies to its own directory only: for a path strictly below
/// the directory the rule never decides, and resolution goes on as if it
/// were absent.
pub proof fn lemma_redirect_skips_descendants(
    rules: Seq<(String, Directive)>,
    path: Seq<char>,
    k: int,
)
    requires
        0 <= k < rules.len(),
        rules[k].1 is Redirect,
        depth(rules[k].0@) < depth(path),
    ensures
        !rule_applies(rules, k, path),
        forall|i: int| selected(rules, path, i) ==> i != k,
{
}

/// A redirect fires for its own directory: where a `Redirect(t)` rule names
/// the request path itself, and no other rule names that directory, the
/// host answers with a redirect to `t`.
pub proof fn lemma_redirect_fires_for_directory(
    server: &Server,
    request: &Request,
    port: Seq<char>,
    k: int,
    r: Route,
)
    requires
        0 <= k < server.directories@.len(),
        server.directories@[k].1 is Redirect,
        same_path(server.directories@[k].0@, request.path@),
        forall|j: int|
            0 <= j < server.directories@.len() && j != k ==> !same_path(
                #[trigger] server.directories@[j].0@,
                request.path@,
            ),
        server.spec_route(request, port, r),
    ensures
        r matches Route::Respond(Response::Redirect(p)) && p@ == server.directories@[k].1->Redirect_0@,
{
    let rules = server.directories@;
    assert(segments(request.path@).take(segments(rules[k].0@).len() as int) == segments(request.path@));
    assert(rule_applies(rules, k, request.path@));
    lemma_selected_exists(rules, request.path@, k);
    let i = choose|i: int| selected(rules, request.path@, i);
    assert(rule_route(server, request, rules[i].0@, rules[i].1, port, r));
    lemma_full_depth_same(rules[i].0@, request.path@);
    assert(i == k);
}

/// An unknown host is not found.
pub proof fn lemma_unknown_host_not_found(config: &Config, request: &Request, r: Route)
    requires
        forall|h: int| 0 <= h < config.vhosts@.len() ==> (#[trigger] config.vhosts@[h]).name@ != request.host@,
        config.spec_route(request, r),
    ensures
        r matches Route::Respond(Response::ServerError(e)) && e is NotFound,
{
}

} // verus!
