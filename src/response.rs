use vstd::prelude::*;
use vstd::utf8::encode_utf8;
use crate::error::{RequestError, ServerError};

verus! {

/// The one answer given to a request.
#[derive(Debug, Clone)]
pub enum Response {
    /// The document, with its media type.
    Success { mimetype: String, body: Vec<u8> },
    /// The client should ask again for this path.
    Redirect(String),
    /// The request was malformed.
    ClientError(RequestError),
    /// The request was well formed but could not be served.
    ServerError(ServerError),
}

impl Response {
    /// The status line without its line break: a status digit, a space and
    /// the meta text.
    pub open spec fn spec_status(&self) -> Seq<char> {
        match self {
            Response::Success { mimetype, .. } => "2 "@ + mimetype@,
            Response::Redirect(path) => "3 "@ + path@,
            Response::ClientError(e) => "4 "@ + e.spec_message(),
            Response::ServerError(e) => "5 "@ + e.spec_message(),
        }
    }

    /// The bytes sent on the wire: the status line ended by CR LF, then the
    /// body for a success and nothing otherwise.
    pub open spec fn spec_wire(&self) -> Seq<u8> {
        let head = encode_utf8(self.spec_status() + "\r\n"@);
        match self {
            Response::Success { body, .. } => head + body@,
            _ => head,
        }
    }

    /// The single line that the log shows for this response.
    pub open spec fn spec_log_line(&self) -> Seq<char> {
        match self {
            Response::Success { mimetype, .. } => "Response::Success("@ + mimetype@ + ")"@,
            Response::Redirect(path) => "Response::Redirect("@ + path@ + ")"@,
            Response::ClientError(e) => "Response::ClientError("@ + e.spec_message() + ")"@,
            Response::ServerError(e) => "Response::ServerError("@ + e.spec_message() + ")"@,
        }
    }

    pub open spec fn spec_is_error(&self) -> bool {
        self is ClientError || self is ServerError
    }

    /// Whether the response reports a failure, and so goes to the error log.
    pub fn is_error(&self) -> (r: bool)
        ensures
            r == self.spec_is_error(),
    {
        match self {
            Response::ClientError(_) | Response::ServerError(_) => true,
            _ => false,
        }
    }

    fn status_line(&self) -> (r: String)
        ensures
            r@ == self.spec_status() + "\r\n"@,
    {
        let mut s = match self {
            Response::Success { mimetype, .. } => {
                let mut s = String::from_str("2 ");
                s.append(mimetype.as_str());
                s
            },
            Response::Redirect(path) => {
                let mut s = String::from_str("3 ");
                s.append(path.as_str());
                s
            },
            Response::ClientError(e) => {
                let mut s = String::from_str("4 ");
                s.append(e.message().as_str());
                s
            },
            Response::ServerError(e) => {
                let mut s = String::from_str("5 ");
                s.append(e.message().as_str());
                s
            },
        };
        s.append("\r\n");
        s
    }

    /// The wire form of the response.
    pub fn encode(self) -> (r: Vec<u8>)
        ensures
            r@ == self.spec_wire(),
    {
        let line = self.status_line();
        let mut out = line.as_str().as_bytes_vec();
        match self {
            Response::Success { mut body, .. } => {
                out.append(&mut body);
            },
            _ => {},
        }
        out
    }

    /// The line that the log shows for this response.
    pub fn log_line(&self) -> (r: String)
        ensures
            r@ == self.spec_log_line(),
    {
        let (mut s, meta) = match self {
            Response::Success { mimetype, .. } => (
                String::from_str("Response::Success("),
                mimetype.clone(),
            ),
            Response::Redirect(path) => (String::from_str("Response::Redirect("), path.clone()),
            Response::ClientError(e) => (String::from_str("Response::ClientError("), e.message()),
            Response::ServerError(e) => (String::from_str("Response::ServerError("), e.message()),
        };
        s.append(meta.as_str());
        s.append(")");
        s
    }
}

impl From<ServerError> for Response {
    fn from(e: ServerError) -> (r: Response) {
        Response::ServerError(e)
    }
}

impl vstd::std_specs::convert::FromSpecImpl<ServerError> for Response {
    open spec fn obeys_from_spec() -> bool {
        true
    }

    open spec fn from_spec(e: ServerError) -> Response {
        Response::ServerError(e)
    }
}

impl From<RequestError> for Response {
    fn from(e: RequestError) -> (r: Response) {
        Response::ClientError(e)
    }
}

impl vstd::std_specs::convert::FromSpecImpl<RequestError> for Response {
    open spec fn obeys_from_spec() -> bool {
        true
    }

    open spec fn from_spec(e: RequestError) -> Response {
        Response::ClientError(e)
    }
}

} // verus!
