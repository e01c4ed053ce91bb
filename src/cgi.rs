use vstd::prelude::*;
use vstd::utf8::{decode_utf8, valid_utf8};
use crate::config::Server;
use crate::error::ServerError;
use crate::path::{
    below, file_name, is_absolute_path, join_from, joined, lies_under, push_path, pushed, segments,
    segments_of, begins,
};
use crate::request::{copy_bytes, Request};
use crate::text::chars_of;
use crate::response::Response;

verus! {

/// The server identification that CGI programs are given.
pub const SERVER_SOFTWARE: &'static str = "agis 0.1.0";

/// The search path that CGI programs are given.
pub const SEARCH_PATH: &'static str = "/usr/local/bin:/usr/bin:/bin";

/// What a CGI program is told about the request it answers.
#[derive(Debug, Clone)]
pub struct Cgi {
    pub document_root: String,
    pub query_string: String,
    pub remote_addr: String,
    pub request_uri: String,
    pub script_filename: String,
    pub script_name: String,
    pub server_name: String,
    pub server_port: String,
    pub server_software: String,
    /// The request's content, handed to the program through a file.
    pub body: Option<Vec<u8>>,
}

/// The request path followed by `?` and the query, if there is one.
pub open spec fn request_uri(path: Seq<char>, query: Option<Seq<char>>) -> Seq<char> {
    match query {
        Some(q) => path + seq!['?'] + q,
        None => path,
    }
}

impl Cgi {
    /// The fields that every CGI program of `server` is told about `request`.
    pub open spec fn describes(&self, request: &Request, server: &Server, port: Seq<char>) -> bool {
        &&& self.document_root@ == server.root@
        &&& self.query_string@ == match request.query {
            Some(q) => q@,
            None => seq![],
        }
        &&& self.remote_addr@ == request.client_ip@
        &&& self.request_uri@ == request_uri(request.path@, request.query.deep_view())
        &&& self.server_name@ == server.name@
        &&& self.server_port@ == port
        &&& self.server_software@ == SERVER_SOFTWARE@
        &&& self.body.deep_view() == request.content.deep_view()
    }

    /// `self` runs the program named by the first segment of the request
    /// path below `dir`.
    pub open spec fn spec_for_dir(&self, request: &Request, server: &Server, dir: Seq<char>) -> bool {
        let name = pushed(dir, below(dir, request.path@)[0]);
        &&& self.script_name@ == name
        &&& self.script_filename@ == pushed(server.root@, joined(segments(name)))
    }

    /// `self` runs the program at `script`, below the document root.
    pub open spec fn spec_for_script(&self, server: &Server, script: Seq<char>) -> bool {
        &&& self.script_name@ == file_name(script)->0
        &&& self.script_filename@ == pushed(server.root@, joined(segments(script)))
    }

    /// Whether the request path below `dir` names a program to run.
    pub open spec fn names_program(request: &Request, dir: Seq<char>) -> bool {
        lies_under(dir, request.path@) && below(dir, request.path@).len() > 0
    }

    fn common(
        request: &Request,
        server: &Server,
        port: &str,
        script_name: String,
        script_filename: String,
    ) -> (r: Cgi)
        ensures
            r.describes(request, server, port@),
            r.script_name == script_name,
            r.script_filename == script_filename,
    {
        let query_string = match &request.query {
            Some(q) => q.clone(),
            None => String::new(),
        };
        let mut uri = request.path.clone();
        match &request.query {
            Some(q) => {
                uri.append("?");
                uri.append(q.as_str());
                proof {
                    reveal_strlit("?");
                }
            },
            None => {},
        }
        let body = match &request.content {
            Some(c) => Some(copy_bytes(c.as_slice(), 0, c.len())),
            None => None,
        };
        assert(body.deep_view() =~= request.content.deep_view());
        assert(uri@ == request_uri(request.path@, request.query.deep_view()));
        let server_software = String::from_str(SERVER_SOFTWARE);
        Cgi {
            document_root: server.root.clone(),
            query_string,
            remote_addr: request.client_ip.clone(),
            request_uri: uri,
            script_filename,
            script_name,
            server_name: server.name.clone(),
            server_port: port.to_owned(),
            server_software,
            body,
        }
    }

    /// The invocation for a request below a CGI directory `dir`: the program
    /// is the first segment of the path below `dir`. A path that is not
    /// below `dir`, or is `dir` itself, names no program.
    pub fn new(request: &Request, server: &Server, dir: &str, port: &str) -> (r: Result<
        Cgi,
        ServerError,
    >)
        ensures
            Cgi::names_program(request, dir@) ==> (r matches Ok(c) && c.describes(
                request,
                server,
                port@,
            ) && c.spec_for_dir(request, server, dir@)),
            !Cgi::names_program(request, dir@) ==> (r matches Err(e) && e is CgiError),
    {
        let dir_segs = segments_of(dir);
        let path_segs = segments_of(request.path.as_str());
        if is_absolute_path(dir) != is_absolute_path(request.path.as_str()) || !begins(
            &dir_segs,
            &path_segs,
        ) || path_segs.len() == dir_segs.len() {
            return Err(ServerError::CgiError);
        }
        let script_name = push_path(dir, path_segs[dir_segs.len()].as_str());
        let name_segs = segments_of(script_name.as_str());
        let script_filename = push_path(server.root.as_str(), join_from(&name_segs, 0).as_str());
        assert(name_segs.deep_view().skip(0) == name_segs.deep_view());
        Ok(Cgi::common(request, server, port, script_name, script_filename))
    }

    /// The invocation for a directory answered by the program at `script`.
    /// A script path without a file name is an error.
    pub fn from_script_alias(request: &Request, server: &Server, script: &str, port: &str) -> (r:
        Result<Cgi, ServerError>)
        ensures
            file_name(script@) is Some ==> (r matches Ok(c) && c.describes(request, server, port@)
                && c.spec_for_script(server, script@)),
            file_name(script@) is None ==> (r matches Err(e) && e is CgiError),
    {
        let segs = segments_of(script);
        if segs.len() == 0 {
            return Err(ServerError::CgiError);
        }
        let last = segs[segs.len() - 1].clone();
        let cs = chars_of(last.as_str());
        if cs.len() == 2 && cs[0] == '.' && cs[1] == '.' {
            assert(cs@ =~= seq!['.', '.']);
            return Err(ServerError::CgiError);
        }
        assert(last@ != seq!['.', '.']);
        let script_filename = push_path(server.root.as_str(), join_from(&segs, 0).as_str());
        assert(segs.deep_view().skip(0) == segs.deep_view());
        Ok(Cgi::common(request, server, port, last, script_filename))
    }

    /// The complete environment of the program: these variables and no
    /// others. `body_file` is the path of the file that holds the request's
    /// content, or empty when there is none.
    pub open spec fn spec_environment(&self, body_file: Seq<char>) -> Seq<(Seq<char>, Seq<char>)> {
        seq![
            ("PATH"@, SEARCH_PATH@),
            ("DOCUMENT_ROOT"@, self.document_root@),
            ("QUERY_STRING"@, self.query_string@),
            ("REMOTE_ADDR"@, self.remote_addr@),
            ("REQUEST_URI"@, self.request_uri@),
            ("SCRIPT_FILENAME"@, self.script_filename@),
            ("SCRIPT_NAME"@, self.script_name@),
            ("SERVER_NAME"@, self.server_name@),
            ("SERVER_PORT"@, self.server_port@),
            ("SERVER_SOFTWARE"@, self.server_software@),
            ("REQUEST_BODY"@, body_file),
        ]
    }

    pub fn environment(&self, body_file: &str) -> (r: Vec<(String, String)>)
        ensures
            r.deep_view() == self.spec_environment(body_file@),
    {
        let mut env: Vec<(String, String)> = Vec::new();
        env.push((String::from_str("PATH"), String::from_str(SEARCH_PATH)));
        env.push((String::from_str("DOCUMENT_ROOT"), self.document_root.clone()));
        env.push((String::from_str("QUERY_STRING"), self.query_string.clone()));
        env.push((String::from_str("REMOTE_ADDR"), self.remote_addr.clone()));
        env.push((String::from_str("REQUEST_URI"), self.request_uri.clone()));
        env.push((String::from_str("SCRIPT_FILENAME"), self.script_filename.clone()));
        env.push((String::from_str("SCRIPT_NAME"), self.script_name.clone()));
        env.push((String::from_str("SERVER_NAME"), self.server_name.clone()));
        env.push((String::from_str("SERVER_PORT"), self.server_port.clone()));
        env.push((String::from_str("SERVER_SOFTWARE"), self.server_software.clone()));
        env.push((String::from_str("REQUEST_BODY"), body_file.to_owned()));
        assert(env.deep_view() =~= self.spec_environment(body_file@));
        env
    }
}

/// What `String::from_utf8_lossy` makes of `b`.
pub uninterp spec fn lossy_text(b: Seq<u8>) -> Seq<char>;

/// Relies on `String::from_utf8_lossy`: it depends on the bytes alone, and
/// valid UTF-8 is read as the characters it encodes.
#[verifier::external_body]
fn lossy_utf8(b: &[u8]) -> (r: String)
    ensures
        r@ == lossy_text(b@),
        valid_utf8(b@) ==> r@ == decode_utf8(b@),
{
    String::from_utf8_lossy(b).into_owned()
}

/// `i` is the first line feed of `out`.
pub open spec fn first_newline(out: Seq<u8>, i: int) -> bool {
    &&& 0 <= i < out.len()
    &&& out[i] == 10
    &&& forall|j: int| 0 <= j < i ==> out[j] != 10
}

/// The response that a CGI program's run gives: when it ran and exited
/// successfully and its output holds a line feed, the text before the first
/// line feed is the media type and the rest is the body; otherwise the
/// script failed.
pub fn cgi_response(exited_ok: bool, output: &[u8]) -> (r: Response)
    ensures
        !exited_ok ==> (r matches Response::ServerError(e) && e is CgiError),
        exited_ok && (forall|j: int| 0 <= j < output@.len() ==> output@[j] != 10) ==> (r matches Response::ServerError(e) && e is CgiError),
        forall|i: int|
            exited_ok && first_newline(output@, i) ==> (r matches Response::Success {
                mimetype,
                body,
            } && mimetype@ == lossy_text(output@.take(i)) && body@ == output@.skip(i + 1)),
{
    if !exited_ok {
        return Response::ServerError(ServerError::CgiError);
    }
    let mut i: usize = 0;
    while i < output.len()
        invariant
            exited_ok,
            i <= output@.len(),
            forall|j: int| 0 <= j < i ==> output@[j] != 10,
        decreases output@.len() - i,
    {
        if output[i] == 10 {
            let mimetype = lossy_utf8(&output[0..i]);
            let mut body: Vec<u8> = Vec::new();
            let mut k = i + 1;
            while k < output.len()
                invariant
                    i < k <= output@.len(),
                    body@ == output@.subrange(i + 1, k as int),
                decreases output@.len() - k,
            {
                body.push(output[k]);
                k = k + 1;
                assert(body@ == output@.subrange(i + 1, k as int));
            }
            assert(forall|m: int| first_newline(output@, m) ==> m == i) by {
                assert forall|m: int| first_newline(output@, m) implies m == i by {
                    if m < i {
                        assert(output@[m] != 10);
                    } else if m > i {
                        assert(output@[i as int] != 10);
                    }
                }
            }
            return Response::Success { mimetype, body };
        }
        i = i + 1;
    }
    Response::ServerError(ServerError::CgiError)
}

} // verus!
