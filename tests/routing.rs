use agis::cgi::{cgi_response, Cgi, SERVER_SOFTWARE};
use agis::config::{Address, Config, Directive, Server};
use agis::error::ServerError;
use agis::request::Request;
use agis::response::Response;
use agis::route::Route;

fn server(rules: Vec<(&str, Directive)>) -> Server {
    Server {
        name: String::from("example.com"),
        root: String::from("/srv/site"),
        directories: rules.into_iter().map(|(d, r)| (String::from(d), r)).collect(),
    }
}

fn config(rules: Vec<(&str, Directive)>) -> Config {
    let mut c = Config::default();
    c.vhosts = vec![server(rules)];
    c
}

fn request(host: &str, target: &str) -> Request {
    let line = format!("{host} {target} 0\r\n");
    Request::parse(line.as_bytes(), String::from("198.51.100.4")).unwrap()
}

fn served(r: Route) -> (String, String) {
    match r {
        Route::Serve { path, target } => (path, target),
        other => panic!("expected static serving, got {other:?}"),
    }
}

#[test]
fn unknown_host_is_not_found() {
    let c = config(vec![]);
    let r = c.route(&request("other.org", "/"));
    match r {
        Route::Respond(resp) => {
            assert!(matches!(resp, Response::ServerError(ServerError::NotFound)));
            assert_eq!(resp.encode(), b"5 Resource not found\r\n".to_vec());
        }
        other => panic!("unexpected {other:?}"),
    }
}

#[test]
fn no_rule_serves_from_the_root() {
    let c = config(vec![]);
    let (path, target) = served(c.route(&request("example.com", "/a/b.gmi")));
    assert_eq!(path, "/a/b.gmi");
    assert_eq!(target, "/srv/site/a/b.gmi");
    let (_, target) = served(c.route(&request("example.com", "/")));
    assert_eq!(target, "/srv/site/");
}

#[test]
fn denied_prefix_covers_nested_allow() {
    let c = config(vec![("/private/pub", Directive::Allow(true)), ("/private", Directive::Allow(false))]);
    for p in ["/private", "/private/x", "/private/pub", "/private/pub/doc.gmi"] {
        match c.route(&request("example.com", p)) {
            Route::Respond(Response::ServerError(ServerError::Unauthorized)) => {}
            other => panic!("{p}: unexpected {other:?}"),
        }
    }
    let (_, target) = served(c.route(&request("example.com", "/privateer")));
    assert_eq!(target, "/srv/site/privateer");
}

#[test]
fn denied_same_prefix_with_allow() {
    let c = config(vec![("/a", Directive::Allow(true)), ("/a", Directive::Allow(false))]);
    assert!(matches!(
        c.route(&request("example.com", "/a/b")),
        Route::Respond(Response::ServerError(ServerError::Unauthorized))
    ));
    let c = config(vec![("/a", Directive::Allow(false)), ("/a", Directive::Allow(true))]);
    assert!(matches!(
        c.route(&request("example.com", "/a")),
        Route::Respond(Response::ServerError(ServerError::Unauthorized))
    ));
}

#[test]
fn allowed_path_is_served() {
    let c = config(vec![("/", Directive::Allow(true))]);
    let (_, target) = served(c.route(&request("example.com", "/x")));
    assert_eq!(target, "/srv/site/x");
}

#[test]
fn redirect_fires_only_for_its_directory() {
    let c = config(vec![("/a", Directive::Redirect(String::from("/elsewhere")))]);
    match c.route(&request("example.com", "/a")) {
        Route::Respond(Response::Redirect(t)) => assert_eq!(t, "/elsewhere"),
        other => panic!("unexpected {other:?}"),
    }
    match c.route(&request("example.com", "/a/")) {
        Route::Respond(Response::Redirect(t)) => assert_eq!(t, "/elsewhere"),
        other => panic!("unexpected {other:?}"),
    }
    let (_, target) = served(c.route(&request("example.com", "/a/b")));
    assert_eq!(target, "/srv/site/a/b");
}

#[test]
fn redirect_below_falls_through_to_shallower_rule() {
    let c = config(vec![
        ("/a", Directive::Redirect(String::from("/t"))),
        ("/", Directive::Allow(false)),
    ]);
    assert!(matches!(
        c.route(&request("example.com", "/a/b")),
        Route::Respond(Response::ServerError(ServerError::Unauthorized))
    ));
}

#[test]
fn longest_prefix_wins() {
    let c = config(vec![
        ("/", Directive::Redirect(String::from("/home"))),
        ("/a", Directive::Alias(String::from("/b"))),
        ("/a/c", Directive::Alias(String::from("/d"))),
    ]);
    match c.route(&request("example.com", "/a/c/e")) {
        Route::Rewrite(q) => assert_eq!(q.path, "/d/e"),
        other => panic!("unexpected {other:?}"),
    }
}

#[test]
fn alias_rewrites_the_path() {
    let c = config(vec![("/docs", Directive::Alias(String::from("/files")))]);
    match c.route(&request("example.com", "/docs/x/y.gmi?k")) {
        Route::Rewrite(q) => {
            assert_eq!(q.path, "/files/x/y.gmi");
            assert_eq!(q.host, "example.com");
            assert_eq!(q.query.as_deref(), Some("k"));
            assert_eq!(q.client_ip, "198.51.100.4");
        }
        other => panic!("unexpected {other:?}"),
    }
    match c.route(&request("example.com", "/docs")) {
        Route::Rewrite(q) => assert_eq!(q.path, "/files/"),
        other => panic!("unexpected {other:?}"),
    }
}

#[test]
fn cgi_directory_runs_first_segment() {
    let c = config(vec![("/cgi-bin", Directive::Cgi)]);
    let req = Request::parse(b"example.com /cgi-bin/hello/extra?name=x 2\r\nhi", String::from("198.51.100.4")).unwrap();
    match c.route(&req) {
        Route::RunCgi(cgi) => {
            assert_eq!(cgi.script_name, "/cgi-bin/hello");
            assert_eq!(cgi.script_filename, "/srv/site/cgi-bin/hello");
            assert_eq!(cgi.document_root, "/srv/site");
            assert_eq!(cgi.query_string, "name=x");
            assert_eq!(cgi.remote_addr, "198.51.100.4");
            assert_eq!(cgi.request_uri, "/cgi-bin/hello/extra?name=x");
            assert_eq!(cgi.server_name, "example.com");
            assert_eq!(cgi.server_port, "300");
            assert_eq!(cgi.server_software, SERVER_SOFTWARE);
            assert_eq!(cgi.body.as_deref(), Some(&b"hi"[..]));
        }
        other => panic!("unexpected {other:?}"),
    }
}

#[test]
fn cgi_directory_itself_is_a_script_failure() {
    let c = config(vec![("/cgi-bin", Directive::Cgi)]);
    assert!(matches!(
        c.route(&request("example.com", "/cgi-bin")),
        Route::Respond(Response::ServerError(ServerError::CgiError))
    ));
}

#[test]
fn script_alias_runs_the_named_script() {
    let c = config(vec![("/app", Directive::ScriptAlias(String::from("/scripts/app.sh")))]);
    match c.route(&request("example.com", "/app/page")) {
        Route::RunCgi(cgi) => {
            assert_eq!(cgi.script_name, "app.sh");
            assert_eq!(cgi.script_filename, "/srv/site/scripts/app.sh");
            assert_eq!(cgi.request_uri, "/app/page");
            assert_eq!(cgi.query_string, "");
            assert!(cgi.body.is_none());
        }
        other => panic!("unexpected {other:?}"),
    }
    let c = config(vec![("/app", Directive::ScriptAlias(String::from("/scripts/..")))]);
    assert!(matches!(
        c.route(&request("example.com", "/app")),
        Route::Respond(Response::ServerError(ServerError::CgiError))
    ));
}

#[test]
fn interpreter_is_surfaced() {
    let c = config(vec![("/php", Directive::Interpreter(String::from("php")))]);
    match c.route(&request("example.com", "/php/x")) {
        Route::Interpreter(n) => assert_eq!(n, "php"),
        other => panic!("unexpected {other:?}"),
    }
}

#[test]
fn relative_path_cannot_be_served() {
    let c = config(vec![]);
    match c.route(&request("example.com", "rel")) {
        Route::Respond(Response::ServerError(ServerError::IoError(m))) => assert_eq!(m, "prefix not found"),
        other => panic!("unexpected {other:?}"),
    }
}

#[test]
fn cgi_environment_is_exactly_the_listed_variables() {
    let s = server(vec![]);
    let req = request("example.com", "/cgi/run?x");
    let cgi = Cgi::new(&req, &s, "/cgi", "3000").unwrap();
    let env = cgi.environment("/tmp/body");
    let names: Vec<&str> = env.iter().map(|(k, _)| k.as_str()).collect();
    assert_eq!(
        names,
        vec![
            "PATH", "DOCUMENT_ROOT", "QUERY_STRING", "REMOTE_ADDR", "REQUEST_URI",
            "SCRIPT_FILENAME", "SCRIPT_NAME", "SERVER_NAME", "SERVER_PORT", "SERVER_SOFTWARE",
            "REQUEST_BODY",
        ]
    );
    assert_eq!(env[0].1, "/usr/local/bin:/usr/bin:/bin");
    assert_eq!(env[4].1, "/cgi/run?x");
    assert_eq!(env[8].1, "3000");
    assert_eq!(env[10].1, "/tmp/body");
    assert!(matches!(Cgi::new(&req, &s, "/other", "3000"), Err(ServerError::CgiError)));
}

#[test]
fn cgi_output_splits_at_first_line_break() {
    match cgi_response(true, b"text/plain\nhello") {
        Response::Success { mimetype, body } => {
            assert_eq!(mimetype, "text/plain");
            assert_eq!(body, b"hello".to_vec());
        }
        other => panic!("unexpected {other:?}"),
    }
    match cgi_response(true, b"a\nb\nc") {
        Response::Success { mimetype, body } => {
            assert_eq!(mimetype, "a");
            assert_eq!(body, b"b\nc".to_vec());
        }
        other => panic!("unexpected {other:?}"),
    }
}

#[test]
fn cgi_output_without_line_break_fails() {
    assert!(matches!(cgi_response(true, b"text/plain"), Response::ServerError(ServerError::CgiError)));
    assert!(matches!(cgi_response(true, b""), Response::ServerError(ServerError::CgiError)));
}

#[test]
fn cgi_failed_exit_fails() {
    assert!(matches!(cgi_response(false, b"text/plain\nhi"), Response::ServerError(ServerError::CgiError)));
}

#[test]
fn cgi_mimetype_is_read_lossily() {
    match cgi_response(true, b"te\xffxt\nz") {
        Response::Success { mimetype, .. } => assert_eq!(mimetype, "te\u{fffd}xt"),
        other => panic!("unexpected {other:?}"),
    }
}

#[test]
fn defaults() {
    let a = Address::default();
    assert_eq!(a.ip, "0.0.0.0");
    assert_eq!(a.port, "300");
    let s = Server::default();
    assert_eq!(s.name, "example.com");
    assert_eq!(s.root, "/srv/spartan");
    assert_eq!(s.directories.len(), 1);
    let c = Config::default();
    assert_eq!(c.threads, 4);
    assert_eq!(c.user, "agis");
    assert_eq!(c.vhosts[0].name, "example.com");
    assert_eq!(c.access_log.as_deref(), Some("/var/log/agis/access.log"));
}
